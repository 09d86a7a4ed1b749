//! Text commands: `Animate NAME: motion? (using SPRING)? (vary LOC to LOC)?`.

use vstd::prelude::*;
use crate::spring::Spring;
use crate::error::Error;
use vstd::string::StrSliceExecFns;

verus! {

/// The icon name with the optional spring preset and variation clauses every
/// command form shares.
#[derive(Debug, Clone)]
pub struct NameAndVariation {
    pub icon_name: String,
    pub spring: Option<Spring>,
    pub vary_from: Option<String>,
    pub vary_to: Option<String>,
}

/// A parsed animation command.
#[derive(Debug, Clone)]
pub enum Command {
    NoMotion(NameAndVariation),
    RotateDegrees(NameAndVariation, i64),
    ScaleFromTo(NameAndVariation, i64, i64),
    PulseWhole(NameAndVariation),
    PulseParts(NameAndVariation),
    TwirlWhole(NameAndVariation),
    TwirlParts(NameAndVariation),
}

/// The shared fields of any command variant.
pub open spec fn spec_nv(c: Command) -> NameAndVariation {
    match c {
        Command::NoMotion(nv) => nv,
        Command::RotateDegrees(nv, ..) => nv,
        Command::ScaleFromTo(nv, ..) => nv,
        Command::PulseWhole(nv) => nv,
        Command::PulseParts(nv) => nv,
        Command::TwirlWhole(nv) => nv,
        Command::TwirlParts(nv) => nv,
    }
}

impl Command {
    pub fn icon_name(&self) -> (s: &String)
        ensures
            *s == spec_nv(*self).icon_name,
    {
        match self {
            Command::NoMotion(nv) => &nv.icon_name,
            Command::RotateDegrees(nv, ..) => &nv.icon_name,
            Command::ScaleFromTo(nv, ..) => &nv.icon_name,
            Command::PulseWhole(nv) => &nv.icon_name,
            Command::PulseParts(nv) => &nv.icon_name,
            Command::TwirlWhole(nv) => &nv.icon_name,
            Command::TwirlParts(nv) => &nv.icon_name,
        }
    }

    pub fn spring(&self) -> (s: Option<Spring>)
        ensures
            s == spec_nv(*self).spring,
    {
        match self {
            Command::NoMotion(nv) => nv.spring,
            Command::RotateDegrees(nv, ..) => nv.spring,
            Command::ScaleFromTo(nv, ..) => nv.spring,
            Command::PulseWhole(nv) => nv.spring,
            Command::PulseParts(nv) => nv.spring,
            Command::TwirlWhole(nv) => nv.spring,
            Command::TwirlParts(nv) => nv.spring,
        }
    }
}


/// A decimal digit.
pub open spec fn is_digit(c: char) -> bool {
    '0' <= c <= '9'
}

/// A word character of an icon name: a letter, digit or underscore.
pub open spec fn is_word_char(c: char) -> bool {
    ('a' <= c <= 'z') || ('A' <= c <= 'Z') || is_digit(c) || c == '_'
}

fn char_is_ws(c: char) -> (r: bool)
    ensures
        r == (c == ' ' || c == '\t'),
{
    c == ' ' || c == '\t'
}

fn char_is_word(c: char) -> (r: bool)
    ensures
        r == is_word_char(c),
{
    ('a' <= c && c <= 'z') || ('A' <= c && c <= 'Z') || ('0' <= c && c <= '9') || c == '_'
}

/// Splits the remainder of a command into whitespace-separated words.
#[verifier::loop_isolation(false)]
fn split_words(s: &str, from: usize) -> (words: Vec<String>)
    requires
        from <= s@.len(),
    ensures
        words@.map_values(|w: String| w@) == spec_words_from(s@, from as int),
{
    let mut words: Vec<String> = Vec::new();
    let mut cur = String::new();
    let mut i: usize = from;
    let n = s.unicode_len();
    while i < n
        invariant
            n == s@.len(),
            from <= i <= n,
            cur@.len() <= i - from,
            cur@.len() == 0 ==> words@.map_values(|w: String| w@) + spec_words_from(s@, i as int)
                == spec_words_from(s@, from as int),
            cur@.len() > 0 ==> {
                let tok = i - cur@.len();
                &&& cur@ == s@.subrange(tok, i as int)
                &&& (forall|q: int| tok <= q < i ==> !spec_is_ws(#[trigger] s@[q]))
                &&& spec_skip_ws(s@, tok) == tok
                &&& words@.map_values(|w: String| w@) + spec_words_from(s@, tok)
                    == spec_words_from(s@, from as int)
            },
        decreases n - i,
    {
        let c = s.get_char(i);
        if char_is_ws(c) {
            if cur.as_str().unicode_len() > 0 {
                proof {
                    let tok = i - cur@.len();
                    lemma_token_end_pinned(s@, tok as int, i as int);
                    lemma_skip_ws_bounds(s@, tok as int);
                    assert(spec_words_from(s@, tok as int) == seq![s@.subrange(tok as int, i as int)]
                        + spec_words_from(s@, i as int));
                    assert(words@.map_values(|w: String| w@).push(cur@) =~= words@.map_values(
                        |w: String| w@,
                    ) + seq![cur@]);
                    assert((words@.push(cur)).map_values(|w: String| w@) =~= words@.map_values(
                        |w: String| w@,
                    ).push(cur@));
                }
                words.push(cur);
                cur = String::new();
            }
            proof {
                if cur@.len() == 0 {
                    assert(spec_skip_ws(s@, i as int) == spec_skip_ws(s@, i + 1));
                    let j = spec_skip_ws(s@, i + 1);
                    lemma_skip_ws_bounds(s@, i + 1);
                    if j < s@.len() {
                        lemma_token_end_bounds(s@, j);
                        assert(spec_token_end(s@, j) >= j + 1);
                    }
                    assert(spec_words_from(s@, i as int) == spec_words_from(s@, i + 1));
                }
            }
        } else {
            crate::push_char(&mut cur, c);
            proof {
                let tok = i + 1 - cur@.len();
                assert(cur@ =~= s@.subrange(tok as int, i + 1));
                if cur@.len() == 1 {
                    assert(spec_skip_ws(s@, tok as int) == tok);
                }
            }
        }
        i = i + 1;
    }
    if cur.as_str().unicode_len() > 0 {
        proof {
            let tok = n - cur@.len();
            lemma_token_end_pinned(s@, tok as int, n as int);
            assert(spec_words_from(s@, tok as int) == seq![s@.subrange(tok as int, n as int)]
                + spec_words_from(s@, n as int));
            assert(spec_words_from(s@, n as int) =~= Seq::<Seq<char>>::empty());
            assert((words@.push(cur)).map_values(|w: String| w@) =~= words@.map_values(
                |w: String| w@,
            ).push(cur@));
            assert(words@.map_values(|w: String| w@).push(cur@) =~= words@.map_values(
                |w: String| w@,
            ) + seq![cur@]);
        }
        words.push(cur);
    } else {
        proof {
            assert(spec_words_from(s@, n as int) =~= Seq::<Seq<char>>::empty());
            assert(words@.map_values(|w: String| w@) + Seq::<Seq<char>>::empty() =~= words@.map_values(
                |w: String| w@,
            ));
        }
    }
    words
}

#[verifier::loop_isolation(false)]
fn str_eq(a: &str, b: &str) -> (r: bool)
    ensures
        r == (a@ == b@),
{
    let na = a.unicode_len();
    let nb = b.unicode_len();
    if na != nb {
        proof {
            assert(a@.len() != b@.len());
        }
        return false;
    }
    let mut i: usize = 0;
    while i < na
        invariant
            na == a@.len(),
            a@.len() == b@.len(),
            i <= na,
            forall|j: int| 0 <= j < i ==> a@[j] == b@[j],
        decreases na - i,
    {
        if a.get_char(i) != b.get_char(i) {
            proof {
                assert(a@[i as int] != b@[i as int]);
            }
            return false;
        }
        i = i + 1;
    }
    proof {
        assert(a@ =~= b@);
    }
    true
}

/// The accumulated decimal value only grows as digits append.
proof fn lemma_dec_from_ge(w: Seq<char>, i: int, acc: int)
    requires
        0 <= i <= w.len(),
        acc >= 0,
        forall|j: int| i <= j < w.len() ==> is_digit(#[trigger] w[j]),
    ensures
        spec_dec_from(w, i, acc) >= acc,
    decreases w.len() - i,
{
    if i < w.len() {
        lemma_dec_from_ge(w, i + 1, acc * 10 + (w[i] as int - 48));
    }
}

/// Parses a whole decimal integer, carried to micro-units.
#[verifier::loop_isolation(false)]
fn parse_int_micro(s: &str) -> (r: Option<i64>)
    ensures
        r is Some <==> spec_int_micro(s@) is Some,
        r matches Some(v) ==> Some(v as int) == spec_int_micro(s@),
{
    let n = s.unicode_len();
    if n == 0 || n > 12 {
        return Option::None;
    }
    let mut value: i64 = 0;
    let mut i: usize = 0;
    while i < n
        invariant
            n == s@.len(),
            1 <= n <= 12,
            i <= n,
            0 <= value <= 1_000_000_000_000,
            forall|j: int| 0 <= j < i ==> is_digit(#[trigger] s@[j]),
            spec_dec_from(s@, i as int, value as int) == spec_dec_from(s@, 0, 0),
        decreases n - i,
    {
        let c = s.get_char(i);
        if !('0' <= c && c <= '9') {
            proof {
                assert(!is_digit(s@[i as int]));
            }
            return Option::None;
        }
        let d = (c as u32) - 48;
        value = crate::fixed::fx_add(crate::fixed::fx_mul_div(value, 10, 1), d as i64);
        proof {
            crate::fixed::lemma_tdiv_bounds(0, 1);
        }
        if value > 1_000_000_000_000 {
            proof {
                if forall|j: int| i + 1 <= j < s@.len() ==> is_digit(#[trigger] s@[j]) {
                    lemma_dec_from_ge(s@, i + 1, value as int);
                    assert(spec_dec_from(s@, 0, 0) > 1_000_000_000_000);
                }
            }
            return Option::None;
        }
        i = i + 1;
    }
    proof {
        assert(spec_dec_from(s@, n as int, value as int) == value as int);
        assert(spec_int_micro(s@) == Some((value as int) * 1_000_000));
    }
    Some(crate::fixed::fx_mul_div(value, crate::fixed::FX_ONE, 1))
}

/// Maps a spring preset name to its spring.
#[verifier::loop_isolation(false)]
fn spring_by_name(s: &str) -> (r: Option<Spring>)
    ensures
        r == spec_spring_of(s@),
        r is Some <==> (s@ == "standard"@ || s@ == "smooth-spatial"@ || s@
            == "smooth-non-spatial"@ || s@ == "expressive-spatial"@ || s@
            == "expressive-non-spatial"@),
{
    proof {
        reveal_strlit("standard");
        reveal_strlit("smooth-spatial");
        reveal_strlit("smooth-non-spatial");
        reveal_strlit("expressive-spatial");
        reveal_strlit("expressive-non-spatial");
        assert("standard"@.len() == 8 && "smooth-spatial"@.len() == 14 && "smooth-non-spatial"@.len()
            == 18 && "expressive-spatial"@.len() == 18 && "expressive-non-spatial"@.len() == 22);
        assert("smooth-non-spatial"@[0] != "expressive-spatial"@[0]);
    }
    if str_eq(s, "standard") {
        Some(Spring::standard())
    } else if str_eq(s, "smooth-spatial") {
        Some(Spring::smooth_spatial())
    } else if str_eq(s, "smooth-non-spatial") {
        Some(Spring::smooth_non_spatial())
    } else if str_eq(s, "expressive-spatial") {
        Some(Spring::expressive_spatial())
    } else if str_eq(s, "expressive-non-spatial") {
        Some(Spring::expressive_non_spatial())
    } else {
        Option::None
    }
}


/// Whitespace inside a command.
pub open spec fn spec_is_ws(c: char) -> bool {
    c == ' ' || c == '\t'
}

/// The first position at or after `i` that is not whitespace.
pub open spec fn spec_skip_ws(s: Seq<char>, i: int) -> int
    decreases s.len() - i,
{
    if i < 0 || i >= s.len() || !spec_is_ws(s[i]) {
        i
    } else {
        spec_skip_ws(s, i + 1)
    }
}

/// The first position at or after `i` that is whitespace or the end.
pub open spec fn spec_token_end(s: Seq<char>, i: int) -> int
    decreases s.len() - i,
{
    if i < 0 || i >= s.len() || spec_is_ws(s[i]) {
        i
    } else {
        spec_token_end(s, i + 1)
    }
}

/// The first position at or after `i` that is not a word character.
pub open spec fn spec_word_end(s: Seq<char>, i: int) -> int
    decreases s.len() - i,
{
    if i < 0 || i >= s.len() || !is_word_char(s[i]) {
        i
    } else {
        spec_word_end(s, i + 1)
    }
}

/// The whitespace-separated words of `s` from position `i` on.
pub open spec fn spec_words_from(s: Seq<char>, i: int) -> Seq<Seq<char>>
    decreases s.len() + 1 - i,
{
    if i < 0 || i > s.len() {
        Seq::empty()
    } else {
        let j = spec_skip_ws(s, i);
        if j >= s.len() {
            Seq::empty()
        } else {
            let e = spec_token_end(s, j);
            let nxt = if i < e && e <= s.len() {
                e
            } else {
                i + 1
            };
            seq![s.subrange(j, e)] + spec_words_from(s, nxt)
        }
    }
}


/// Position bounds of the scans.
proof fn lemma_skip_ws_bounds(s: Seq<char>, i: int)
    requires
        0 <= i <= s.len(),
    ensures
        i <= spec_skip_ws(s, i) <= s.len(),
        spec_skip_ws(s, i) < s.len() ==> !spec_is_ws(s[spec_skip_ws(s, i)]),
        forall|q: int| i <= q < spec_skip_ws(s, i) ==> spec_is_ws(#[trigger] s[q]),
    decreases s.len() - i,
{
    if i < s.len() && spec_is_ws(s[i]) {
        lemma_skip_ws_bounds(s, i + 1);
    }
}

proof fn lemma_token_end_bounds(s: Seq<char>, i: int)
    requires
        0 <= i <= s.len(),
    ensures
        i <= spec_token_end(s, i) <= s.len(),
        spec_token_end(s, i) < s.len() ==> spec_is_ws(s[spec_token_end(s, i)]),
        forall|q: int| i <= q < spec_token_end(s, i) ==> !spec_is_ws(#[trigger] s[q]),
    decreases s.len() - i,
{
    if i < s.len() && !spec_is_ws(s[i]) {
        lemma_token_end_bounds(s, i + 1);
    }
}

proof fn lemma_word_end_bounds(s: Seq<char>, i: int)
    requires
        0 <= i <= s.len(),
    ensures
        i <= spec_word_end(s, i) <= s.len(),
        spec_word_end(s, i) < s.len() ==> !is_word_char(s[spec_word_end(s, i)]),
        forall|q: int| i <= q < spec_word_end(s, i) ==> is_word_char(#[trigger] s[q]),
    decreases s.len() - i,
{
    if i < s.len() && is_word_char(s[i]) {
        lemma_word_end_bounds(s, i + 1);
    }
}

/// A run of non-whitespace up to a boundary pins the token end.
proof fn lemma_token_end_pinned(s: Seq<char>, i: int, e: int)
    requires
        0 <= i <= e <= s.len(),
        forall|q: int| i <= q < e ==> !spec_is_ws(#[trigger] s[q]),
        e == s.len() || spec_is_ws(s[e]),
    ensures
        spec_token_end(s, i) == e,
    decreases e - i,
{
    if i < e {
        lemma_token_end_pinned(s, i + 1, e);
    }
}

/// A run of whitespace up to a boundary pins the skip end.
proof fn lemma_skip_ws_pinned(s: Seq<char>, i: int, e: int)
    requires
        0 <= i <= e <= s.len(),
        forall|q: int| i <= q < e ==> spec_is_ws(#[trigger] s[q]),
        e == s.len() || !spec_is_ws(s[e]),
    ensures
        spec_skip_ws(s, i) == e,
    decreases e - i,
{
    if i < e {
        lemma_skip_ws_pinned(s, i + 1, e);
    }
}

/// The head of a command: the icon name after `Animate` and the word list
/// after the colon — `None` when the input does not fit that frame.
pub open spec fn spec_command_shape(s: Seq<char>) -> Option<(Seq<char>, Seq<Seq<char>>)> {
    if s.len() < 8 || s.subrange(0, 8) != "Animate "@ {
        Option::None
    } else {
        let p = spec_skip_ws(s, 8);
        let q = spec_word_end(s, p);
        if q == p {
            Option::None
        } else {
            let r = spec_skip_ws(s, q);
            if r >= s.len() || s[r] != ':' {
                Option::None
            } else {
                Some((s.subrange(p, q), spec_words_from(s, r + 1)))
            }
        }
    }
}

/// The decimal value of the digits of `w` up to position `i`, onto `acc`.
pub open spec fn spec_dec_from(w: Seq<char>, i: int, acc: int) -> int
    decreases w.len() - i,
{
    if i < 0 || i >= w.len() {
        acc
    } else {
        spec_dec_from(w, i + 1, acc * 10 + (w[i] as int - 48))
    }
}

/// A whole decimal number of at most twelve digits, at most a million
/// millions, carried to micro-units.
pub open spec fn spec_int_micro(w: Seq<char>) -> Option<int> {
    if 1 <= w.len() <= 12 && (forall|j: int| 0 <= j < w.len() ==> is_digit(#[trigger] w[j]))
        && spec_dec_from(w, 0, 0) <= 1_000_000_000_000 {
        Some(spec_dec_from(w, 0, 0) * 1_000_000)
    } else {
        Option::None
    }
}

/// The spring a preset name denotes.
pub open spec fn spec_spring_of(w: Seq<char>) -> Option<Spring> {
    if w == "standard"@ {
        Some(Spring::standard())
    } else if w == "smooth-spatial"@ {
        Some(Spring::smooth_spatial())
    } else if w == "smooth-non-spatial"@ {
        Some(Spring::smooth_non_spatial())
    } else if w == "expressive-spatial"@ {
        Some(Spring::expressive_spatial())
    } else if w == "expressive-non-spatial"@ {
        Some(Spring::expressive_non_spatial())
    } else {
        Option::None
    }
}

/// How many words the motion clause takes: three for `rotate N degrees`,
/// four for `scale A to B`, one for a bare motion word, none otherwise.
pub open spec fn spec_motion_len(words: Seq<Seq<char>>) -> int {
    if words.len() == 0 {
        0
    } else if words[0] == "rotate"@ {
        3
    } else if words[0] == "scale"@ {
        4
    } else if words[0] == "pulse"@ || words[0] == "pulse-whole"@ || words[0] == "twirl"@
        || words[0] == "twirl-whole"@ || words[0] == "none"@ {
        1
    } else {
        0
    }
}

/// The motion clause is well-formed: rotate and scale carry their numbers
/// and keywords; the bare words and the absent motion always fit.
pub open spec fn spec_motion_ok(words: Seq<Seq<char>>) -> bool {
    if words.len() > 0 && words[0] == "rotate"@ {
        words.len() >= 3 && spec_int_micro(words[1]) is Some && words[2] == "degrees"@
    } else if words.len() > 0 && words[0] == "scale"@ {
        words.len() >= 4 && spec_int_micro(words[1]) is Some && words[2] == "to"@
            && spec_int_micro(words[3]) is Some
    } else {
        true
    }
}

/// Where the vary clause would start: after the motion and, when present,
/// after `using NAME`.
pub open spec fn spec_vary_pos(words: Seq<Seq<char>>) -> int {
    let m = spec_motion_len(words);
    if m < words.len() && words[m] == "using"@ {
        m + 2
    } else {
        m
    }
}

/// The whole word list parses: the motion fits, a `using` clause names a
/// preset, a `vary` clause carries `FROM to TO`, and nothing is left over.
pub open spec fn spec_words_ok(words: Seq<Seq<char>>) -> bool {
    let m = spec_motion_len(words);
    let v = spec_vary_pos(words);
    &&& spec_motion_ok(words)
    &&& (m < words.len() && words[m] == "using"@ ==> m + 1 < words.len() && spec_spring_of(
        words[m + 1],
    ) is Some)
    &&& (if v < words.len() && words[v] == "vary"@ {
        v + 3 < words.len() && words[v + 2] == "to"@ && v + 4 == words.len()
    } else {
        v == words.len()
    })
}

/// What parsing a word list yields, observably: success exactly on
/// well-formed lists, the variant by the motion word, the operands equal to
/// the parsed numbers, the spring by its name, the vary strings captured,
/// and each error on its own inputs.
pub open spec fn spec_words_outcome(
    words: Seq<Seq<char>>,
    r: Result<Command, Error>,
    name: Seq<char>,
) -> bool {
    let m = spec_motion_len(words);
    let v = spec_vary_pos(words);
    &&& (r is Ok <==> spec_words_ok(words))
    &&& (r matches Ok(cmd) ==> {
        &&& spec_nv(cmd).icon_name@ == name
        &&& (cmd is RotateDegrees <==> words.len() > 0 && words[0] == "rotate"@)
        &&& (cmd is ScaleFromTo <==> words.len() > 0 && words[0] == "scale"@)
        &&& (cmd is PulseParts <==> words.len() > 0 && words[0] == "pulse"@)
        &&& (cmd is PulseWhole <==> words.len() > 0 && words[0] == "pulse-whole"@)
        &&& (cmd is TwirlParts <==> words.len() > 0 && words[0] == "twirl"@)
        &&& (cmd is TwirlWhole <==> words.len() > 0 && words[0] == "twirl-whole"@)
        &&& (cmd matches Command::RotateDegrees(_, d) ==> Some(d as int) == spec_int_micro(
            words[1],
        ))
        &&& (cmd matches Command::ScaleFromTo(_, a, b) ==> Some(a as int) == spec_int_micro(
            words[1],
        ) && Some(b as int) == spec_int_micro(words[3]))
        &&& (spec_nv(cmd).spring is Some <==> m < words.len() && words[m] == "using"@)
        &&& (m < words.len() && words[m] == "using"@ ==> spec_nv(cmd).spring == spec_spring_of(
            words[m + 1],
        ))
        &&& (spec_nv(cmd).vary_from is Some <==> v < words.len() && words[v] == "vary"@)
        &&& (spec_nv(cmd).vary_from matches Some(vf) ==> vf@ == words[v + 1]
            && spec_nv(cmd).vary_to is Some && spec_nv(cmd).vary_to.unwrap()@ == words[v + 3])
        &&& (spec_nv(cmd).vary_from is None ==> spec_nv(cmd).vary_to is None)
    })
    &&& (r == Err::<Command, Error>(Error::InvalidF64) <==> (words.len() >= 3 && words[0]
        == "rotate"@ && spec_int_micro(words[1]) is None) || (words.len() >= 4 && words[0]
        == "scale"@ && (spec_int_micro(words[1]) is None || (spec_int_micro(words[1]) is Some
        && words[2] == "to"@ && spec_int_micro(words[3]) is None))))
    &&& (r == Err::<Command, Error>(Error::UnrecognizedSpring) <==> spec_motion_ok(words) && m
        < words.len() && words[m] == "using"@ && m + 1 < words.len() && spec_spring_of(words[m + 1])
        is None)
    &&& (r is Err ==> r == Err::<Command, Error>(Error::UnrecognizedCommand) || r == Err::<
        Command,
        Error,
    >(Error::UnrecognizedSpring) || r == Err::<Command, Error>(Error::InvalidF64))
}

impl Command {
    /// Parses a command: `Animate NAME:`, an optional motion (`rotate N
    /// degrees`, `scale A to B`, `pulse`, `pulse-whole`, `twirl`,
    /// `twirl-whole`, `none`), an optional `using PRESET` and an optional
    /// `vary LOC to LOC`. An unknown preset fails with `UnrecognizedSpring`;
    /// anything else that does not fit fails with `UnrecognizedCommand`.
    #[verifier::loop_isolation(false)]
    #[verifier::rlimit(100)]
    #[verifier::spinoff_prover]
    pub fn parse(animation: &str) -> (r: Result<Command, Error>)
        ensures
            !vstd::string::is_ascii(animation) ==> r == Err::<Command, Error>(
                Error::UnrecognizedCommand,
            ),
            vstd::string::is_ascii(animation) && spec_command_shape(animation@) is None ==> r
                == Err::<Command, Error>(Error::UnrecognizedCommand),
            vstd::string::is_ascii(animation) ==> (spec_command_shape(animation@) matches Some(
                sh,
            ) ==> spec_words_outcome(sh.1, r, sh.0)),
            r matches Err(e) ==> e == Error::UnrecognizedCommand || e == Error::UnrecognizedSpring
                || e == Error::InvalidF64,
    {
        if !animation.is_ascii() {
            return Err(Error::UnrecognizedCommand);
        }
        let n = animation.unicode_len();
        // Literal "Animate", then whitespace.
        let lead = "Animate ";
        if n < 8 {
            return Err(Error::UnrecognizedCommand);
        }
        let head = animation.substring_ascii(0, 8);
        if !str_eq(head, lead) {
            return Err(Error::UnrecognizedCommand);
        }
        let mut i: usize = 8;
        while i < n && char_is_ws(animation.get_char(i))
            invariant
                n == animation@.len(),
                8 <= i <= n,
                animation.is_ascii(),
                spec_skip_ws(animation@, i as int) == spec_skip_ws(animation@, 8),
            decreases n - i,
        {
            i = i + 1;
        }
        let ghost p = i as int;
        proof {
            assert(p == spec_skip_ws(animation@, 8));
        }
        // The icon name: word characters up to the colon.
        let mut icon_name = String::new();
        while i < n && char_is_word(animation.get_char(i))
            invariant
                n == animation@.len(),
                p <= i <= n,
                animation.is_ascii(),
                icon_name@ == animation@.subrange(p, i as int),
                spec_word_end(animation@, i as int) == spec_word_end(animation@, p),
            decreases n - i,
        {
            crate::push_char(&mut icon_name, animation.get_char(i));
            proof {
                assert(icon_name@ =~= animation@.subrange(p, i + 1));
            }
            i = i + 1;
        }
        let ghost q = i as int;
        proof {
            assert(q == spec_word_end(animation@, p));
        }
        if icon_name.as_str().unicode_len() == 0 {
            proof {
                assert(q == p);
                assert(spec_command_shape(animation@) is None);
            }
            return Err(Error::UnrecognizedCommand);
        }
        while i < n && char_is_ws(animation.get_char(i))
            invariant
                n == animation@.len(),
                q <= i <= n,
                animation.is_ascii(),
                spec_skip_ws(animation@, i as int) == spec_skip_ws(animation@, q),
            decreases n - i,
        {
            i = i + 1;
        }
        proof {
            assert(i as int == spec_skip_ws(animation@, q));
        }
        if i >= n || animation.get_char(i) != ':' {
            proof {
                assert(spec_command_shape(animation@) is None);
            }
            return Err(Error::UnrecognizedCommand);
        }
        i = i + 1;
        proof {
            assert(spec_command_shape(animation@) == Some(
                (animation@.subrange(p, q), spec_words_from(animation@, i as int)),
            ));
        }
        let words = split_words(animation, i);
        let ghost nm = icon_name@;
        let ghost wv = words@.map_values(|w: String| w@);
        let r = parse_words(icon_name, words, Ghost(wv));
        proof {
            assert(spec_words_outcome(wv, r, nm));
            assert(spec_command_shape(animation@) == Some((nm, wv)));
        }
        r
    }
}

/// Parses the word list after `Animate NAME:` into the command: an optional
/// motion word decides the variant, `using` names a preset, `vary` captures
/// the two locations, and anything left over is refused.
fn parse_words(icon_name: String, words: Vec<String>, wv: Ghost<Seq<Seq<char>>>) -> (r: Result<
    Command,
    Error,
>)
    requires
        wv@.len() == words@.len(),
        forall|k: int| 0 <= k < words@.len() ==> wv@[k] == (#[trigger] words@[k])@,
    ensures
        spec_words_outcome(wv@, r, icon_name@),
{
    proof {
        assert(words@.map_values(|w: String| w@) =~= wv@);
        reveal_strlit("rotate");
        reveal_strlit("scale");
        reveal_strlit("pulse");
        reveal_strlit("pulse-whole");
        reveal_strlit("twirl");
        reveal_strlit("twirl-whole");
        reveal_strlit("none");
        reveal_strlit("using");
        reveal_strlit("vary");
        reveal_strlit("degrees");
        reveal_strlit("to");
        assert("rotate"@.len() == 6 && "scale"@.len() == 5 && "pulse"@.len() == 5
            && "pulse-whole"@.len() == 11 && "twirl"@.len() == 5 && "twirl-whole"@.len() == 11
            && "none"@.len() == 4 && "using"@.len() == 5 && "vary"@.len() == 4 && "degrees"@.len()
            == 7 && "to"@.len() == 2);
        assert("scale"@[0] != "pulse"@[0] && "scale"@[0] != "twirl"@[0] && "scale"@[0]
            != "using"@[0] && "scale"@[0] != "vary"@[0] && "pulse"@[0] != "twirl"@[0] && "pulse"@[0]
            != "using"@[0] && "pulse"@[0] != "vary"@[0] && "twirl"@[0] != "using"@[0] && "twirl"@[0]
            != "vary"@[0] && "using"@[0] != "vary"@[0] && "pulse-whole"@[0] != "twirl-whole"@[0]);
    }
    let mut w: usize = 0;
    let n = words.len();
    // Decide the motion.
    let mut degrees: i64 = 0;
    let mut scale_from: i64 = 0;
    let mut scale_to: i64 = 0;
    let mut kind: u8 = 0;
    if w < n {
        let word = &words[w];
        {
            if str_eq(word.as_str(), "rotate") {
                if w + 2 >= n {
                    return Err(Error::UnrecognizedCommand);
                }
                let d = match parse_int_micro(words[w + 1].as_str()) {
                    Some(d) => d,
                    _ => {
                        return Err(Error::InvalidF64);
                    },
                };
                if !str_eq(words[w + 2].as_str(), "degrees") {
                    return Err(Error::UnrecognizedCommand);
                }
                degrees = d;
                kind = 1;
                w = w + 3;
            } else if str_eq(word.as_str(), "scale") {
                if w + 3 >= n {
                    return Err(Error::UnrecognizedCommand);
                }
                let a = match parse_int_micro(words[w + 1].as_str()) {
                    Some(a) => a,
                    _ => {
                        return Err(Error::InvalidF64);
                    },
                };
                if !str_eq(words[w + 2].as_str(), "to") {
                    return Err(Error::UnrecognizedCommand);
                }
                let b = match parse_int_micro(words[w + 3].as_str()) {
                    Some(b) => b,
                    _ => {
                        return Err(Error::InvalidF64);
                    },
                };
                scale_from = a;
                scale_to = b;
                kind = 2;
                w = w + 4;
            } else if str_eq(word.as_str(), "pulse") {
                kind = 3;
                w = w + 1;
            } else if str_eq(word.as_str(), "pulse-whole") {
                kind = 4;
                w = w + 1;
            } else if str_eq(word.as_str(), "twirl") {
                kind = 5;
                w = w + 1;
            } else if str_eq(word.as_str(), "twirl-whole") {
                kind = 6;
                w = w + 1;
            } else if str_eq(word.as_str(), "none") {
                kind = 0;
                w = w + 1;
            }
        }
    }
    // Optional spring clause.
    let mut spring: Option<Spring> = Option::None;
    if w < n && str_eq(words[w].as_str(), "using") {
        if w + 1 >= n {
            return Err(Error::UnrecognizedCommand);
        }
        spring = match spring_by_name(words[w + 1].as_str()) {
            Some(s) => Some(s),
            _ => {
                return Err(Error::UnrecognizedSpring);
            },
        };
        w = w + 2;
    }
    // Optional variation clause.
    let mut vary_from: Option<String> = Option::None;
    let mut vary_to: Option<String> = Option::None;
    if w < n && str_eq(words[w].as_str(), "vary") {
        if w + 3 >= n {
            return Err(Error::UnrecognizedCommand);
        }
        if !str_eq(words[w + 2].as_str(), "to") {
            return Err(Error::UnrecognizedCommand);
        }
        vary_from = Some(clone_string(&words[w + 1]));
        vary_to = Some(clone_string(&words[w + 3]));
        w = w + 4;
    }
    if w != n {
        return Err(Error::UnrecognizedCommand);
    }
    let nv = NameAndVariation { icon_name, spring, vary_from, vary_to };
    Ok(
        match kind {
            1 => Command::RotateDegrees(nv, degrees),
            2 => Command::ScaleFromTo(nv, scale_from, scale_to),
            3 => Command::PulseParts(nv),
            4 => Command::PulseWhole(nv),
            5 => Command::TwirlParts(nv),
            6 => Command::TwirlWhole(nv),
            _ => Command::NoMotion(nv),
        },
    )
}

fn clone_string(s: &String) -> (r: String)
    ensures
        r@ == s@,
{
    let r: String = s.as_str().to_owned();
    r
}

/// The first comma at or after `i`, or the end of the text.
pub open spec fn spec_comma_end(s: Seq<char>, i: int) -> int
    decreases s.len() - i,
{
    if i < 0 || i >= s.len() {
        s.len() as int
    } else if s[i] == ',' {
        i
    } else {
        spec_comma_end(s, i + 1)
    }
}

/// A stretch free of commas up to a comma or the end pins the next comma.
proof fn lemma_comma_end_pinned(s: Seq<char>, i: int, e: int)
    requires
        0 <= i <= e <= s.len(),
        forall|q: int| i <= q < e ==> (#[trigger] s[q]) != ',',
        e == s.len() || s[e] == ',',
    ensures
        spec_comma_end(s, i) == e,
    decreases e - i,
{
    if i < e {
        lemma_comma_end_pinned(s, i + 1, e);
    }
}

/// Mirror of the whole-part scan: digits up to a dot or the end, folded
/// with the same saturating steps and the same overflow cutoff the scanner
/// applies. Yields the value and where the scan stopped.
pub open spec fn spec_whole_part(s: Seq<char>, i: int, acc: int) -> Option<(int, int)>
    decreases s.len() - i,
{
    if i < 0 || i > s.len() {
        Option::None
    } else if i == s.len() || s[i] == '.' {
        Option::Some((acc, i))
    } else if !('0' <= s[i] && s[i] <= '9') {
        Option::None
    } else if acc > 1_000_000_000_000 {
        Option::None
    } else {
        spec_whole_part(
            s,
            i + 1,
            crate::fixed::spec_add(crate::fixed::spec_mul_div(acc, 10, 1), s[i] as int - 48),
        )
    }
}

/// Mirror of the fraction scan: digits to the end, each adding its share of
/// the current weight, the weight divided by ten as it goes.
pub open spec fn spec_frac_part(s: Seq<char>, i: int, acc: int, weight: int) -> Option<int>
    decreases s.len() - i,
{
    if i < 0 || i > s.len() {
        Option::None
    } else if i == s.len() {
        Option::Some(acc)
    } else if !('0' <= s[i] && s[i] <= '9') {
        Option::None
    } else {
        spec_frac_part(
            s,
            i + 1,
            crate::fixed::spec_add(
                acc,
                crate::fixed::spec_mul_div(weight, s[i] as int - 48, 1),
            ),
            crate::fixed::spec_mul_div(weight, 1, 10),
        )
    }
}

/// An optionally signed decimal with an optional fraction, read from `from`
/// to the end, carried to micro-units with saturating fixed-point steps.
pub open spec fn spec_signed_micro(s: Seq<char>, from: int) -> Option<int> {
    let n = s.len() as int;
    if from < 0 || from >= n {
        Option::None
    } else {
        let neg = s[from] == '-';
        let i0: int = if s[from] == '-' || s[from] == '+' {
            from + 1
        } else {
            from
        };
        if i0 >= n {
            Option::None
        } else {
            match spec_whole_part(s, i0, 0) {
                Option::None => Option::None,
                Option::Some((w, e)) => {
                    if e == i0 {
                        Option::None
                    } else {
                        let micro = crate::fixed::spec_mul_div(w, 1_000_000, 1);
                        let m = if e == n {
                            Option::Some(micro)
                        } else if e + 1 >= n {
                            Option::None
                        } else {
                            spec_frac_part(s, e + 1, micro, 100_000)
                        };
                        match m {
                            Option::None => Option::None,
                            Option::Some(v) => Option::Some(
                                if neg {
                                    crate::fixed::clamped(-v)
                                } else {
                                    v
                                },
                            ),
                        }
                    }
                },
            }
        }
    }
}

/// What a `TAG:NUM` pair parses to, when it does: the sole colon fourth,
/// the tag's four printable characters packed big-endian, the number in
/// micro-units.
pub open spec fn spec_axis_pair_value(kv: Seq<char>) -> Option<(int, int)> {
    if kv.len() >= 5 && kv[4] == ':' && (forall|q: int|
        0 <= q < kv.len() && q != 4 ==> kv[q] != ':') && (forall|t: int|
        0 <= t < 4 ==> 32 <= (#[trigger] kv[t]) as int <= 126) {
        match spec_signed_micro(kv, 5) {
            Option::None => Option::None,
            Option::Some(v) => Option::Some(
                (
                    (kv[0] as int) * 0x100_0000 + (kv[1] as int) * 0x1_0000 + (kv[2] as int)
                        * 0x100 + (kv[3] as int),
                    v,
                ),
            ),
        }
    } else {
        Option::None
    }
}

/// The pairs a csv location parses to from `start` on, when every piece
/// between commas parses.
pub open spec fn spec_location_pairs(s: Seq<char>, start: int) -> Option<Seq<(int, int)>>
    decreases s.len() + 1 - start,
{
    if start < 0 || start > s.len() {
        Option::None
    } else {
        let e0 = spec_comma_end(s, start);
        let e = if start <= e0 && e0 <= s.len() {
            e0
        } else {
            start
        };
        match spec_axis_pair_value(s.subrange(start, e)) {
            Option::None => Option::None,
            Option::Some(p) => if e >= s.len() {
                Option::Some(seq![p])
            } else {
                match spec_location_pairs(s, e + 1) {
                    Option::None => Option::None,
                    Option::Some(rest) => Option::Some(seq![p] + rest),
                }
            },
        }
    }
}

/// Parses one designspace location: a csv of `TAG:NUM` pairs, tags of four
/// ASCII characters, numbers as optionally signed decimals with an optional
/// fraction, carried to micro-units. Succeeds exactly when the text is
/// ASCII, of workable length, and every piece parses, and then returns pair
/// for pair what `spec_location_pairs` reads.
#[verifier::loop_isolation(false)]
#[verifier::rlimit(100)]
#[verifier::spinoff_prover]
pub fn parse_location(raw: &str) -> (r: Result<Vec<(u32, i64)>, Error>)
    ensures
        r is Ok <==> (raw.is_ascii() && raw@.len() <= 100_000 && spec_location_pairs(raw@, 0)
            is Some),
        r matches Ok(v) ==> ({
            let m = spec_location_pairs(raw@, 0)->Some_0;
            &&& m.len() == v@.len()
            &&& forall|k: int|
                0 <= k < v@.len() ==> m[k] == (((#[trigger] v@[k]).0 as int, v@[k].1 as int))
        }),
        r matches Ok(v) ==> v@.len() >= 1,
        r matches Err(e) ==> e == Error::InvalidLocation || e == Error::InvalidTag || e
            == Error::InvalidF64,
{
    if !raw.is_ascii() {
        return Err(Error::InvalidLocation);
    }
    let n = raw.unicode_len();
    if n > 100_000 {
        return Err(Error::InvalidLocation);
    }
    let mut out: Vec<(u32, i64)> = Vec::new();
    let mut start: usize = 0;
    let mut i: usize = 0;
    while i <= n
        invariant
            n == raw@.len(),
            raw.is_ascii(),
            start <= i <= n + 1,
            i > n ==> out@.len() >= 1,
            out@.len() >= (if i > n { 1int } else { 0int }),
            forall|q: int| start <= q < i && q < n ==> raw@[q] != ',',
            i <= n ==> ({
                &&& (spec_location_pairs(raw@, start as int) is None ==> spec_location_pairs(
                    raw@,
                    0,
                ) is None)
                &&& (spec_location_pairs(raw@, start as int) matches Some(rest)
                    ==> spec_location_pairs(raw@, 0) matches Some(m) && m.len() == out@.len()
                    + rest.len() && (forall|k: int|
                    0 <= k < out@.len() ==> m[k] == (((#[trigger] out@[k]).0 as int,
                    out@[k].1 as int))) && (forall|k: int|
                    0 <= k < rest.len() ==> m[out@.len() + k] == #[trigger] rest[k]))
            }),
            i > n ==> ({
                &&& spec_location_pairs(raw@, 0) matches Some(m) && m.len() == out@.len() && (
                forall|k: int|
                    0 <= k < out@.len() ==> m[k] == (((#[trigger] out@[k]).0 as int,
                    out@[k].1 as int)))
            }),
        decreases n + 1 - i,
    {
        if i == n || raw.get_char(i) == ',' {
            proof {
                lemma_comma_end_pinned(raw@, start as int, i as int);
            }
            let piece = raw.substring_ascii(start, i);
            let pair = match parse_axis_pair(piece) {
                Ok(p) => p,
                Err(e) => {
                    proof {
                        assert(spec_location_pairs(raw@, start as int) is None);
                    }
                    return Err(e);
                },
            };
            proof {
                assert(spec_axis_pair_value(raw@.subrange(start as int, i as int))
                    == Option::Some((pair.0 as int, pair.1 as int)));
            }
            let ghost old_out = out@;
            let ghost pm = (pair.0 as int, pair.1 as int);
            out.push(pair);
            proof {
                let piece_rest = seq![pm];
                if i == n {
                    assert(spec_location_pairs(raw@, start as int) == Option::Some(piece_rest));
                    let m = spec_location_pairs(raw@, 0)->Some_0;
                    assert(m.len() == old_out.len() + 1);
                    assert(m[old_out.len() as int] == piece_rest[0]);
                    assert forall|k: int| 0 <= k < out@.len() implies m[k] == ((
                    (#[trigger] out@[k]).0 as int, out@[k].1 as int)) by {
                        if k < old_out.len() {
                            assert(m[k] == ((old_out[k].0 as int, old_out[k].1 as int)));
                        }
                    }
                } else {
                    // The piece ends at a comma: splice it before the rest.
                    if spec_location_pairs(raw@, i + 1) is None {
                        assert(spec_location_pairs(raw@, start as int) is None);
                        assert(spec_location_pairs(raw@, 0) is None);
                    } else {
                        let rest2 = spec_location_pairs(raw@, i + 1)->Some_0;
                        let rest = piece_rest + rest2;
                        assert(spec_location_pairs(raw@, start as int) == Option::Some(rest));
                        let m = spec_location_pairs(raw@, 0)->Some_0;
                        assert(m.len() == old_out.len() + rest.len());
                        assert(rest.len() == 1 + rest2.len());
                        assert forall|k: int| 0 <= k < out@.len() implies m[k] == ((
                        (#[trigger] out@[k]).0 as int, out@[k].1 as int)) by {
                            if k < old_out.len() {
                                assert(m[k] == ((old_out[k].0 as int, old_out[k].1 as int)));
                            } else {
                                assert(k == old_out.len());
                                assert(m[old_out.len() as int] == rest[0]);
                                assert(rest[0] == pm);
                            }
                        }
                        assert forall|k: int| 0 <= k < rest2.len() implies m[out@.len() + k]
                            == #[trigger] rest2[k] by {
                            assert(m[old_out.len() + 1 + k] == rest[1 + k]);
                            assert(rest[1 + k] == rest2[k]);
                        }
                    }
                }
            }
            start = i + 1;
        }
        i = i + 1;
    }
    Ok(out)
}

/// One `TAG:NUM` pair: a four-character printable tag, one colon, a number.
#[verifier::loop_isolation(false)]
#[verifier::rlimit(100)]
#[verifier::spinoff_prover]
fn parse_axis_pair(kv: &str) -> (r: Result<(u32, i64), Error>)
    requires
        kv.is_ascii(),
    ensures
        r matches Ok(p) ==> spec_axis_pair_value(kv@) == Option::Some(
            (p.0 as int, p.1 as int),
        ),
        r is Err ==> spec_axis_pair_value(kv@) is None,
        r matches Ok(p) ==> kv@.len() >= 5 && kv@[4] == ':' && (forall|q: int|
            0 <= q < kv@.len() && q != 4 ==> kv@[q] != ':') && p.0 as int == (kv@[0] as int)
            * 0x100_0000 + (kv@[1] as int) * 0x1_0000 + (kv@[2] as int) * 0x100 + (kv@[3] as int),
        r matches Err(e) ==> (e == Error::InvalidLocation ==> (forall|q: int|
            0 <= q < kv@.len() ==> kv@[q] != ':') || (exists|p1: int, p2: int|
            0 <= p1 < p2 < kv@.len() && (#[trigger] kv@[p1]) == ':' && (#[trigger] kv@[p2])
                == ':')),
        r matches Err(e) ==> (e == Error::InvalidTag ==> exists|p: int|
            0 <= p < kv@.len() && (#[trigger] kv@[p]) == ':' && (p != 4 || exists|t: int|
                0 <= t < 4 && ((#[trigger] kv@[t]) as int > 126 || (kv@[t] as int) < 32))),
        r matches Err(e) ==> e == Error::InvalidLocation || e == Error::InvalidTag || e
            == Error::InvalidF64,
{
    let n = kv.unicode_len();
    // Find the single colon.
    let mut colon: usize = n;
    let mut i: usize = 0;
    while i < n
        invariant
            n == kv@.len(),
            kv.is_ascii(),
            i <= n,
            colon <= n,
            colon == n ==> forall|q: int| 0 <= q < i ==> kv@[q] != ':',
            colon < n ==> kv@[colon as int] == ':' && (forall|q: int|
                0 <= q < i && q != colon ==> kv@[q] != ':'),
            colon < n ==> colon < i,
        decreases n - i,
    {
        if kv.get_char(i) == ':' {
            if colon != n {
                proof {
                    assert(kv@[colon as int] == ':' && kv@[i as int] == ':');
                    if colon != 4 {
                        assert(!(spec_axis_pair_value(kv@) is Some)) by {
                            assert(0 <= colon < kv@.len() && colon != 4 && kv@[colon as int]
                                == ':');
                        }
                    } else {
                        assert(!(spec_axis_pair_value(kv@) is Some)) by {
                            assert(0 <= i < kv@.len() && i != 4 && kv@[i as int] == ':');
                        }
                    }
                }
                return Err(Error::InvalidLocation);
            }
            colon = i;
        }
        i = i + 1;
    }
    if colon == n {
        proof {
            assert(!(spec_axis_pair_value(kv@) is Some)) by {
                if kv@.len() >= 5 {
                    assert(kv@[4] != ':');
                }
            }
        }
        return Err(Error::InvalidLocation);
    }
    // The tag: exactly four ASCII characters, packed big-endian.
    if colon != 4 {
        proof {
            assert(!(spec_axis_pair_value(kv@) is Some)) by {
                assert(0 <= colon < kv@.len() && colon != 4 && kv@[colon as int] == ':');
            }
        }
        return Err(Error::InvalidTag);
    }
    let c0 = kv.get_char(0) as u32;
    let c1 = kv.get_char(1) as u32;
    let c2 = kv.get_char(2) as u32;
    let c3 = kv.get_char(3) as u32;
    if c0 > 126 || c0 < 32 || c1 > 126 || c1 < 32 || c2 > 126 || c2 < 32 || c3 > 126 || c3 < 32 {
        return Err(Error::InvalidTag);
    }
    let tag: u32 = c0 * 0x100_0000 + c1 * 0x1_0000 + c2 * 0x100 + c3;
    // The value: sign, digits, optional fraction.
    let val = match parse_signed_micro(kv, colon + 1) {
        Some(v) => v,
        _ => {
            return Err(Error::InvalidF64);
        },
    };
    Ok((tag, val))
}

/// A signed decimal with an optional fraction, read from `from` to the end,
/// in micro-units: exactly what `spec_signed_micro` reads there.
#[verifier::loop_isolation(false)]
#[verifier::rlimit(100)]
#[verifier::spinoff_prover]
fn parse_signed_micro(s: &str, from: usize) -> (r: Option<i64>)
    requires
        s.is_ascii(),
    ensures
        ({
            let m = spec_signed_micro(s@, from as int);
            &&& (r is None <==> m is None)
            &&& (r matches Some(v) ==> m == Option::Some(v as int))
        }),
{
    let n = s.unicode_len();
    if from >= n {
        return Option::None;
    }
    let mut i = from;
    let mut neg = false;
    let c0 = s.get_char(i);
    if c0 == '-' {
        neg = true;
        i = i + 1;
    } else if c0 == '+' {
        i = i + 1;
    }
    let ghost i0 = i as int;
    if i >= n {
        return Option::None;
    }
    let mut whole: i64 = 0;
    let mut saw_digit = false;
    while i < n && s.get_char(i) != '.'
        invariant
            n == s@.len(),
            s.is_ascii(),
            i0 <= i <= n,
            i0 < n,
            0 <= whole <= 10_000_000_000_009,
            saw_digit == (i0 < i),
            spec_whole_part(s@, i as int, whole as int) == spec_whole_part(s@, i0, 0),
        decreases n - i,
    {
        let c = s.get_char(i);
        if !('0' <= c && c <= '9') {
            proof {
                assert(spec_whole_part(s@, i0, 0) is None);
            }
            return Option::None;
        }
        if whole > 1_000_000_000_000 {
            proof {
                assert(spec_whole_part(s@, i0, 0) is None);
            }
            return Option::None;
        }
        whole = crate::fixed::fx_add(crate::fixed::fx_mul_div(whole, 10, 1), (c as u32 - 48) as i64);
        saw_digit = true;
        i = i + 1;
    }
    proof {
        assert(spec_whole_part(s@, i0, 0) == Option::Some((whole as int, i as int)));
    }
    if !saw_digit {
        return Option::None;
    }
    let mut micro = crate::fixed::fx_mul_div(whole, crate::fixed::FX_ONE, 1);
    let ghost e0 = i as int;
    let ghost micro0 = micro as int;
    if i < n {
        // A fraction after the dot: up to six digits carry weight.
        i = i + 1;
        if i >= n {
            return Option::None;
        }
        let mut weight: i64 = 100_000;
        while i < n
            invariant
                n == s@.len(),
                s.is_ascii(),
                e0 + 1 <= i <= n,
                0 <= weight <= 100_000,
                spec_frac_part(s@, i as int, micro as int, weight as int) == spec_frac_part(
                    s@,
                    e0 + 1,
                    micro0,
                    100_000,
                ),
            decreases n - i,
        {
            let c = s.get_char(i);
            if !('0' <= c && c <= '9') {
                proof {
                    assert(spec_frac_part(s@, e0 + 1, micro0, 100_000) is None);
                }
                return Option::None;
            }
            micro = crate::fixed::fx_add(
                micro,
                crate::fixed::fx_mul_div(weight, (c as u32 - 48) as i64, 1),
            );
            weight = crate::fixed::fx_mul_div(weight, 1, 10);
            i = i + 1;
        }
        proof {
            assert(spec_frac_part(s@, e0 + 1, micro0, 100_000) == Option::Some(micro as int));
        }
    }
    if neg {
        Some(crate::fixed::fx_neg(micro))
    } else {
        Some(micro)
    }
}

/// Whether one stored `vary` clause parses: ASCII text of workable length
/// whose every csv piece is a `TAG:NUM` pair.
pub open spec fn spec_location_ok(s: String) -> bool {
    &&& s.is_ascii()
    &&& s@.len() <= 100_000
    &&& spec_location_pairs(s@, 0) is Some
}

/// The pairs one parsed location holds, pair for pair from the text.
pub open spec fn spec_location_of(s: Option<String>, v: Seq<(u32, i64)>) -> bool {
    match s {
        Option::Some(f) => {
            let m = spec_location_pairs(f@, 0);
            &&& m is Some
            &&& m->Some_0.len() == v.len()
            &&& forall|k: int|
                0 <= k < v.len() ==> m->Some_0[k] == (((#[trigger] v[k]).0 as int,
                v[k].1 as int))
        },
        Option::None => v.len() == 0,
    }
}

impl Command {
    /// The parsed `vary` locations: absent clauses give empty locations, a
    /// present one yields pair for pair what its text holds, and parsing
    /// succeeds exactly when every present clause is well formed.
    pub fn variation(&self) -> (r: Result<(Vec<(u32, i64)>, Vec<(u32, i64)>), Error>)
        ensures
            r is Ok <==> ((spec_nv(*self).vary_from matches Some(f) ==> spec_location_ok(f)) && (
            spec_nv(*self).vary_to matches Some(t) ==> spec_location_ok(t))),
            r matches Ok(p) ==> spec_location_of(spec_nv(*self).vary_from, p.0@)
                && spec_location_of(spec_nv(*self).vary_to, p.1@),
            spec_nv(*self).vary_from is None && spec_nv(*self).vary_to is None ==> (r matches Ok(
                p,
            ) && p.0@.len() == 0 && p.1@.len() == 0),
            r matches Ok(p) ==> (spec_nv(*self).vary_from is Some ==> p.0@.len() >= 1) && (spec_nv(
                *self,
            ).vary_to is Some ==> p.1@.len() >= 1),
            r matches Err(e) ==> (spec_nv(*self).vary_from is Some || spec_nv(*self).vary_to
                is Some) && (e == Error::InvalidLocation || e == Error::InvalidTag || e
                == Error::InvalidF64),
    {
        let nv = match self {
            Command::NoMotion(nv) => nv,
            Command::RotateDegrees(nv, ..) => nv,
            Command::ScaleFromTo(nv, ..) => nv,
            Command::PulseWhole(nv) => nv,
            Command::PulseParts(nv) => nv,
            Command::TwirlWhole(nv) => nv,
            Command::TwirlParts(nv) => nv,
        };
        let from = match &nv.vary_from {
            Some(s) => {
                match parse_location(s.as_str()) {
                    Ok(v) => v,
                    Err(e) => {
                        return Err(e);
                    },
                }
            },
            _ => Vec::new(),
        };
        let to = match &nv.vary_to {
            Some(s) => {
                match parse_location(s.as_str()) {
                    Ok(v) => v,
                    Err(e) => {
                        return Err(e);
                    },
                }
            },
            _ => Vec::new(),
        };
        Ok((from, to))
    }
}

} // verus!
