//! Reading a mod's manifest document into its metadata.
//!
//! The manifest is a structured text document of canonical shape:
//!
//!     manifest = 1
//!     [metadata]
//!     name = "Example"
//!     guid = "example"
//!     author = "someone"
//!     version = "1.0.0"
//!     depends = ["other:*", { guid = "base", version = ">=1.0" }]
//!
//! The `depends` line is optional. Strings are written either as
//! double-quoted strings, where `\\` and `\"` escape a backslash and a quote,
//! or as single-quoted literals without escapes. A dependency is either the
//! compact `"guid:versionRange"` string or an inline table with `guid` and
//! `version` keys and an optional trailing `soft` flag.

use vstd::prelude::*;

use crate::mod_data::{meta_wf, DepRefV, DepV, MetaV, ModDependency, ModDependencyEnum};
use crate::mod_data::{ModFile, ModMetaData};
use crate::text::{expect_lit, spec_expect, spec_take_until_quote, take_until_quote};
use crate::text::lemma_take_until_quote_len;

verus! {

// ------------------------------------------------------------------
// Strings, numbers, booleans
// ------------------------------------------------------------------

/// The contents of a double-quoted string read up to its closing quote, and
/// the rest of the input. `\\` and `\"` escape a backslash and a quote; no
/// other escape is recognized, and the string does not span lines.
pub open spec fn spec_take_basic(s: Seq<char>) -> Option<(Seq<char>, Seq<char>)>
    decreases s.len(),
{
    if s.len() == 0 {
        None
    } else if s[0] == '"' {
        Some((Seq::empty(), s.drop_first()))
    } else if s[0] == '\\' {
        if s.len() >= 2 && (s[1] == '\\' || s[1] == '"') {
            match spec_take_basic(s.skip(2)) {
                None => None,
                Some((content, rest)) => Some((seq![s[1]] + content, rest)),
            }
        } else {
            None
        }
    } else if s[0] == '\n' {
        None
    } else {
        match spec_take_basic(s.drop_first()) {
            None => None,
            Some((content, rest)) => Some((seq![s[0]] + content, rest)),
        }
    }
}

/// Reading a double-quoted string consumes at least its closing quote.
pub proof fn lemma_take_basic_len(s: Seq<char>)
    ensures
        spec_take_basic(s) matches Some((content, rest)) ==> rest.len() < s.len(),
    decreases s.len(),
{
    if s.len() > 0 && s[0] != '"' && s[0] != '\n' {
        if s[0] == '\\' {
            if s.len() >= 2 && (s[1] == '\\' || s[1] == '"') {
                lemma_take_basic_len(s.skip(2));
            }
        } else {
            lemma_take_basic_len(s.drop_first());
        }
    }
}

/// A string read off the front of `s`: single-quoted literal or double-quoted
/// with escapes.
pub open spec fn spec_parse_string(s: Seq<char>) -> Option<(Seq<char>, Seq<char>)> {
    if s.len() > 0 && s[0] == '\'' {
        spec_take_until_quote(s.drop_first())
    } else if s.len() > 0 && s[0] == '"' {
        spec_take_basic(s.drop_first())
    } else {
        None
    }
}

/// Reading a string consumes at least its two quotes.
pub proof fn lemma_parse_string_len(s: Seq<char>)
    ensures
        spec_parse_string(s) matches Some((content, rest)) ==> rest.len() + 2 <= s.len(),
{
    if s.len() > 0 && s[0] == '\'' {
        lemma_take_until_quote_len(s.drop_first());
    }
    if s.len() > 0 && s[0] == '"' {
        lemma_take_basic_len(s.drop_first());
    }
}

/// Reads a double-quoted string's contents at position `pos` of `text`, after
/// the opening quote.
fn take_basic(text: &str, pos: usize) -> (r: Option<(String, usize)>)
    requires
        pos <= text@.len(),
    ensures
        match r {
            Some((content, p)) => pos <= p <= text@.len() && spec_take_basic(
                text@.skip(pos as int),
            ) == Some((content@, text@.skip(p as int))),
            None => spec_take_basic(text@.skip(pos as int)) == None::<(Seq<char>, Seq<char>)>,
        },
{
    let n = text.unicode_len();
    let mut content = String::new();
    let mut cur = pos;
    proof {
        assert(content@ + Seq::<char>::empty() =~= content@);
    }
    while cur < n
        invariant
            pos <= cur <= n,
            n == text@.len(),
            ({
                let whole = spec_take_basic(text@.skip(pos as int));
                let here = spec_take_basic(text@.skip(cur as int));
                match here {
                    Some((c, rest)) => whole == Some((content@ + c, rest)),
                    None => whole == None::<(Seq<char>, Seq<char>)>,
                }
            }),
        decreases n - cur,
    {
        let ghost s = text@.skip(cur as int);
        proof {
            assert(s[0] == text@[cur as int]);
        }
        let c = text.get_char(cur);
        if c == '"' {
            proof {
                assert(s.drop_first() =~= text@.skip(cur as int + 1));
                assert(content@ + Seq::<char>::empty() =~= content@);
            }
            return Some((content, cur + 1));
        }
        if c == '\\' {
            if cur + 1 >= n {
                return None;
            }
            proof {
                assert(s[1] == text@[cur as int + 1]);
            }
            let e = text.get_char(cur + 1);
            if e != '\\' && e != '"' {
                return None;
            }
            let ghost before = content@;
            content.push(e);
            proof {
                assert(s.skip(2) =~= text@.skip(cur as int + 2));
                assert forall|c2: Seq<char>| before + (seq![e] + c2) =~= content@ + c2 by {}
            }
            cur = cur + 2;
        } else if c == '\n' {
            return None;
        } else {
            let ghost before = content@;
            content.push(c);
            proof {
                assert(s.drop_first() =~= text@.skip(cur as int + 1));
                assert forall|c2: Seq<char>| before + (seq![c] + c2) =~= content@ + c2 by {}
            }
            cur = cur + 1;
        }
    }
    proof {
        assert(text@.skip(cur as int).len() == 0);
    }
    None
}

/// Reads a string at position `pos` of `text`, in either quoting form.
fn parse_string(text: &str, pos: usize) -> (r: Option<(String, usize)>)
    requires
        pos <= text@.len(),
    ensures
        match r {
            Some((content, p)) => pos <= p <= text@.len() && spec_parse_string(
                text@.skip(pos as int),
            ) == Some((content@, text@.skip(p as int))),
            None => spec_parse_string(text@.skip(pos as int)) == None::<(Seq<char>, Seq<char>)>,
        },
{
    let n = text.unicode_len();
    if pos >= n {
        return None;
    }
    proof {
        assert(text@.skip(pos as int)[0] == text@[pos as int]);
        assert(text@.skip(pos as int).drop_first() =~= text@.skip(pos as int + 1));
    }
    let c = text.get_char(pos);
    if c == '\'' {
        take_until_quote(text, pos + 1)
    } else if c == '"' {
        take_basic(text, pos + 1)
    } else {
        None
    }
}

/// The numeric value of a digit.
pub open spec fn digit_val(c: char) -> Option<int> {
    if c == '0' {
        Some(0)
    } else if c == '1' {
        Some(1)
    } else if c == '2' {
        Some(2)
    } else if c == '3' {
        Some(3)
    } else if c == '4' {
        Some(4)
    } else if c == '5' {
        Some(5)
    } else if c == '6' {
        Some(6)
    } else if c == '7' {
        Some(7)
    } else if c == '8' {
        Some(8)
    } else if c == '9' {
        Some(9)
    } else {
        None
    }
}

/// The length of the digit prefix of `s`.
pub open spec fn spec_digits_prefix(s: Seq<char>) -> int
    decreases s.len(),
{
    if s.len() == 0 || digit_val(s[0]) is None {
        0
    } else {
        1 + spec_digits_prefix(s.drop_first())
    }
}

/// The digit prefix is a prefix.
pub proof fn lemma_digits_prefix(s: Seq<char>)
    ensures
        0 <= spec_digits_prefix(s) <= s.len(),
        forall|j: int| 0 <= j < spec_digits_prefix(s) ==> digit_val(s[j]) is Some,
        spec_digits_prefix(s) < s.len() ==> digit_val(s[spec_digits_prefix(s)]) is None,
    decreases s.len(),
{
    if s.len() > 0 && digit_val(s[0]) is Some {
        lemma_digits_prefix(s.drop_first());
        assert forall|j: int| 0 < j < spec_digits_prefix(s) implies digit_val(s[j]) is Some by {
            assert(s.drop_first()[j - 1] == s[j]);
        }
    }
}

/// The digit prefix is determined by where the digits stop.
pub proof fn lemma_digits_prefix_is(s: Seq<char>, k: int)
    requires
        0 <= k <= s.len(),
        forall|j: int| 0 <= j < k ==> digit_val(#[trigger] s[j]) is Some,
        k < s.len() ==> digit_val(s[k]) is None,
    ensures
        spec_digits_prefix(s) == k,
    decreases s.len(),
{
    if k > 0 {
        assert forall|j: int| 0 <= j < k - 1 implies digit_val(
            #[trigger] s.drop_first()[j],
        ) is Some by {
            assert(s.drop_first()[j] == s[j + 1]);
        }
        lemma_digits_prefix_is(s.drop_first(), k - 1);
    }
}

/// The value of a digit string.
pub open spec fn digits_value(ds: Seq<char>) -> int
    decreases ds.len(),
{
    if ds.len() == 0 {
        0
    } else {
        digits_value(ds.drop_last()) * 10 + (match digit_val(ds.last()) {
            Some(v) => v,
            None => 0,
        })
    }
}

/// Digit strings have non-negative, monotone values.
pub proof fn lemma_digits_value_bounds(ds: Seq<char>)
    ensures
        digits_value(ds) >= 0,
        ds.len() > 0 ==> digits_value(ds) >= digits_value(ds.drop_last()),
    decreases ds.len(),
{
    if ds.len() > 0 {
        lemma_digits_value_bounds(ds.drop_last());
    }
}

/// A non-negative integer read off the front of `s`: its value and the rest.
pub open spec fn spec_take_number(s: Seq<char>) -> Option<(int, Seq<char>)> {
    let k = spec_digits_prefix(s);
    if k == 0 {
        None
    } else {
        Some((digits_value(s.take(k)), s.skip(k)))
    }
}

/// Reads a non-negative integer at position `pos` of `text`; fails when no
/// digit is present or the value does not fit the manifest's integer type.
fn parse_number(text: &str, pos: usize) -> (r: Option<(i32, usize)>)
    requires
        pos <= text@.len(),
    ensures
        match r {
            Some((v, p)) => pos <= p <= text@.len() && spec_take_number(text@.skip(pos as int))
                == Some((v as int, text@.skip(p as int))),
            None => spec_take_number(text@.skip(pos as int)) matches Some((v, _)) ==> v
                > i32::MAX as int,
        },
{
    let ghost s = text@.skip(pos as int);
    let n = text.unicode_len();
    let mut val: i64 = 0;
    let mut cur = pos;
    while cur < n
        invariant
            pos <= cur <= n,
            n == text@.len(),
            s == text@.skip(pos as int),
            0 <= val <= i32::MAX as i64,
            val as int == digits_value(s.take(cur - pos)),
            forall|j: int| 0 <= j < cur - pos ==> digit_val(#[trigger] s[j]) is Some,
        decreases n - cur,
    {
        proof {
            assert(s[cur - pos] == text@[cur as int]);
        }
        let c = text.get_char(cur);
        let d: i64 = if c == '0' {
            0
        } else if c == '1' {
            1
        } else if c == '2' {
            2
        } else if c == '3' {
            3
        } else if c == '4' {
            4
        } else if c == '5' {
            5
        } else if c == '6' {
            6
        } else if c == '7' {
            7
        } else if c == '8' {
            8
        } else if c == '9' {
            9
        } else {
            10
        };
        if d == 10 && !(c == '0') {
            // not a digit: the number ends here
            proof {
                lemma_digits_prefix_is(s, cur - pos);
            }
            if cur == pos {
                return None;
            }
            proof {
                assert(s.skip(cur - pos) =~= text@.skip(cur as int));
            }
            return Some((val as i32, cur));
        }
        proof {
            assert(s.take(cur - pos + 1).drop_last() =~= s.take(cur - pos));
            assert(s.take(cur - pos + 1).last() == s[cur - pos]);
        }
        val = val * 10 + d;
        if val > i32::MAX as i64 {
            proof {
                lemma_number_overflow(s, cur - pos + 1, val as int);
            }
            return None;
        }
        cur = cur + 1;
    }
    proof {
        lemma_digits_prefix_is(s, cur - pos);
    }
    if cur == pos {
        return None;
    }
    proof {
        assert(s.skip(cur - pos) =~= text@.skip(cur as int));
    }
    Some((val as i32, cur))
}

/// When a digit prefix already exceeds the bound, the whole number does.
proof fn lemma_number_overflow(s: Seq<char>, k: int, partial: int)
    requires
        0 < k <= s.len(),
        forall|j: int| 0 <= j < k ==> digit_val(#[trigger] s[j]) is Some,
        digits_value(s.take(k)) == partial,
        partial > i32::MAX as int,
    ensures
        spec_take_number(s) matches Some((v, _)) ==> v > i32::MAX as int,
{
    lemma_digits_prefix(s);
    let kp = spec_digits_prefix(s);
    if kp > 0 {
        assert(k <= kp) by {
            if k > kp {
                assert(digit_val(s[kp]) is Some);
            }
        }
        lemma_digits_value_grows(s, k, kp);
    }
}

/// A longer digit prefix has at least the value of a shorter one.
proof fn lemma_digits_value_grows(s: Seq<char>, k1: int, k2: int)
    requires
        0 <= k1 <= k2 <= s.len(),
    ensures
        digits_value(s.take(k2)) >= digits_value(s.take(k1)),
    decreases k2 - k1,
{
    if k1 < k2 {
        lemma_digits_value_grows(s, k1, k2 - 1);
        lemma_digits_value_bounds(s.take(k2));
        assert(s.take(k2).drop_last() =~= s.take(k2 - 1));
    }
}

/// A boolean read off the front of `s`.
pub open spec fn spec_parse_bool(s: Seq<char>) -> Option<(bool, Seq<char>)> {
    match spec_expect(s, "true"@) {
        Some(rest) => Some((true, rest)),
        None => match spec_expect(s, "false"@) {
            Some(rest) => Some((false, rest)),
            None => None,
        },
    }
}

/// Reads a boolean at position `pos` of `text`.
fn parse_bool(text: &str, pos: usize) -> (r: Option<(bool, usize)>)
    requires
        pos <= text@.len(),
    ensures
        match r {
            Some((b, p)) => pos <= p <= text@.len() && spec_parse_bool(text@.skip(pos as int))
                == Some((b, text@.skip(p as int))),
            None => spec_parse_bool(text@.skip(pos as int)) == None::<(bool, Seq<char>)>,
        },
{
    match expect_lit(text, pos, "true") {
        Some(p) => Some((true, p)),
        None => match expect_lit(text, pos, "false") {
            Some(p) => Some((false, p)),
            None => None,
        },
    }
}

// ------------------------------------------------------------------
// Dependency references
// ------------------------------------------------------------------

/// A dependency reference read off the front of `s`: a plain string for the
/// compact form, or an inline table with `guid`, `version`, and an optional
/// trailing `soft` flag.
pub open spec fn spec_parse_dep(s: Seq<char>) -> Option<(DepRefV, Seq<char>)> {
    if s.len() > 0 && (s[0] == '\'' || s[0] == '"') {
        match spec_parse_string(s) {
            None => None,
            Some((c, rest)) => Some((DepRefV::Compact(c), rest)),
        }
    } else {
        match spec_expect(s, "{ guid = "@) {
            None => None,
            Some(r1) => match spec_parse_string(r1) {
                None => None,
                Some((guid, r2)) => match spec_expect(r2, ", version = "@) {
                    None => None,
                    Some(r3) => match spec_parse_string(r3) {
                        None => None,
                        Some((version, r4)) => match spec_expect(r4, ", soft = "@) {
                            Some(r5) => match spec_parse_bool(r5) {
                                None => None,
                                Some((soft, r6)) => match spec_expect(r6, " }"@) {
                                    None => None,
                                    Some(r7) => Some(
                                        (DepRefV::Table(DepV { guid, soft, version }), r7),
                                    ),
                                },
                            },
                            None => match spec_expect(r4, " }"@) {
                                None => None,
                                Some(r5) => Some(
                                    (DepRefV::Table(DepV { guid, soft: false, version }), r5),
                                ),
                            },
                        },
                    },
                },
            },
        }
    }
}

/// Reading a dependency reference consumes at least one character.
pub proof fn lemma_parse_dep_len(s: Seq<char>)
    ensures
        spec_parse_dep(s) matches Some((d, rest)) ==> rest.len() < s.len(),
{
    if s.len() > 0 && (s[0] == '\'' || s[0] == '"') {
        lemma_parse_string_len(s);
    } else {
        match spec_expect(s, "{ guid = "@) {
            None => {},
            Some(r1) => {
                lemma_parse_string_len(r1);
                match spec_parse_string(r1) {
                    None => {},
                    Some((guid, r2)) => {
                        match spec_expect(r2, ", version = "@) {
                            None => {},
                            Some(r3) => {
                                lemma_parse_string_len(r3);
                            },
                        }
                    },
                }
            },
        }
    }
}

/// Reads a dependency reference at position `pos` of `text`.
fn parse_dep(text: &str, pos: usize) -> (r: Option<(ModDependencyEnum, usize)>)
    requires
        pos <= text@.len(),
    ensures
        match r {
            Some((d, p)) => pos <= p <= text@.len() && spec_parse_dep(text@.skip(pos as int))
                == Some((d@, text@.skip(p as int))),
            None => spec_parse_dep(text@.skip(pos as int)) == None::<(DepRefV, Seq<char>)>,
        },
{
    let ghost s = text@.skip(pos as int);
    let n = text.unicode_len();
    if pos < n {
        proof {
            assert(s[0] == text@[pos as int]);
        }
        let c = text.get_char(pos);
        if c == '\'' || c == '"' {
            return match parse_string(text, pos) {
                None => None,
                Some((content, p)) => Some((ModDependencyEnum::ImplicitHard(content), p)),
            };
        }
    }
    let p1 = match expect_lit(text, pos, "{ guid = ") {
        None => {
            return None;
        },
        Some(p) => p,
    };
    let (guid, p2) = match parse_string(text, p1) {
        None => {
            return None;
        },
        Some(x) => x,
    };
    let p3 = match expect_lit(text, p2, ", version = ") {
        None => {
            return None;
        },
        Some(p) => p,
    };
    let (version, p4) = match parse_string(text, p3) {
        None => {
            return None;
        },
        Some(x) => x,
    };
    match expect_lit(text, p4, ", soft = ") {
        Some(p5) => {
            let (soft, p6) = match parse_bool(text, p5) {
                None => {
                    return None;
                },
                Some(x) => x,
            };
            let p7 = match expect_lit(text, p6, " }") {
                None => {
                    return None;
                },
                Some(p) => p,
            };
            Some((ModDependencyEnum::DependTable(ModDependency { guid, soft, version }), p7))
        },
        None => {
            let p5 = match expect_lit(text, p4, " }") {
                None => {
                    return None;
                },
                Some(p) => p,
            };
            Some(
                (ModDependencyEnum::DependTable(ModDependency { guid, soft: false, version }), p5),
            )
        },
    }
}

/// One or more comma-separated dependency references followed by the closing
/// bracket, read off the front of `s`.
pub open spec fn spec_parse_dep_items(s: Seq<char>) -> Option<(Seq<DepRefV>, Seq<char>)>
    decreases s.len(),
{
    match spec_parse_dep(s) {
        None => None,
        Some((first, rest)) => {
            proof {
                lemma_parse_dep_len(s);
            }
            match spec_expect(rest, ", "@) {
                Some(rest2) => match spec_parse_dep_items(rest2) {
                    None => None,
                    Some((more, rest3)) => Some((seq![first] + more, rest3)),
                },
                None => match spec_expect(rest, "]"@) {
                    Some(rest2) => Some((seq![first], rest2)),
                    None => None,
                },
            }
        },
    }
}

/// A bracketed dependency array read off the front of `s`.
pub open spec fn spec_parse_dep_list(s: Seq<char>) -> Option<(Seq<DepRefV>, Seq<char>)> {
    match spec_expect(s, "["@) {
        None => None,
        Some(rest) => match spec_expect(rest, "]"@) {
            Some(rest2) => Some((Seq::empty(), rest2)),
            None => spec_parse_dep_items(rest),
        },
    }
}

/// Reads a bracketed dependency array at position `pos` of `text`.
fn parse_dep_list(text: &str, pos: usize) -> (r: Option<(Vec<ModDependencyEnum>, usize)>)
    requires
        pos <= text@.len(),
    ensures
        match r {
            Some((deps, p)) => pos <= p <= text@.len() && spec_parse_dep_list(
                text@.skip(pos as int),
            ) == Some((deps.deep_view(), text@.skip(p as int))),
            None => spec_parse_dep_list(text@.skip(pos as int)) == None::<(
                Seq<DepRefV>,
                Seq<char>,
            )>,
        },
{
    let ghost s = text@.skip(pos as int);
    let pos1 = match expect_lit(text, pos, "[") {
        None => {
            return None;
        },
        Some(p) => p,
    };
    match expect_lit(text, pos1, "]") {
        Some(p2) => {
            let deps: Vec<ModDependencyEnum> = Vec::new();
            proof {
                assert(deps.deep_view() =~= Seq::<DepRefV>::empty());
            }
            return Some((deps, p2));
        },
        None => {},
    }
    let ghost start = pos1;
    let n = text.unicode_len();
    let mut deps: Vec<ModDependencyEnum> = Vec::new();
    let mut cur = pos1;
    proof {
        assert(deps.deep_view() =~= Seq::<DepRefV>::empty());
        assert(deps.deep_view() + Seq::<DepRefV>::empty() =~= Seq::<DepRefV>::empty());
    }
    while cur < n
        invariant
            pos <= pos1 <= cur <= text@.len(),
            n == text@.len(),
            s == text@.skip(pos as int),
            start == pos1,
            spec_expect(s, "["@) == Some(text@.skip(start as int)),
            spec_expect(text@.skip(start as int), "]"@) == None::<Seq<char>>,
            ({
                let whole = spec_parse_dep_items(text@.skip(start as int));
                let here = spec_parse_dep_items(text@.skip(cur as int));
                match here {
                    Some((more, rest)) => whole == Some((deps.deep_view() + more, rest)),
                    None => whole == None::<(Seq<DepRefV>, Seq<char>)>,
                }
            }),
        decreases n - cur,
    {
        let ghost deps_before = deps.deep_view();
        let (dep, p1) = match parse_dep(text, cur) {
            None => {
                return None;
            },
            Some(x) => x,
        };
        proof {
            lemma_parse_dep_len(text@.skip(cur as int));
        }
        let ghost dep_v = dep@;
        match expect_lit(text, p1, ", ") {
            Some(p2) => {
                deps.push(dep);
                proof {
                    assert(deps.deep_view() =~= deps_before.push(dep_v));
                    assert forall|more: Seq<DepRefV>|
                        deps_before + (seq![dep_v] + more) =~= deps.deep_view() + more by {}
                }
                cur = p2;
            },
            None => {
                match expect_lit(text, p1, "]") {
                    Some(p2) => {
                        deps.push(dep);
                        proof {
                            assert(deps.deep_view() =~= deps_before.push(dep_v));
                            assert(deps_before + seq![dep_v] =~= deps.deep_view());
                            assert(spec_parse_dep_items(text@.skip(cur as int)) == Some(
                                (seq![dep_v], text@.skip(p2 as int)),
                            ));
                            assert(spec_parse_dep_items(text@.skip(start as int)) == Some(
                                (deps.deep_view(), text@.skip(p2 as int)),
                            ));
                            assert(spec_parse_dep_list(text@.skip(pos as int)) == Some(
                                (deps.deep_view(), text@.skip(p2 as int)),
                            ));
                        }
                        return Some((deps, p2));
                    },
                    None => {
                        return None;
                    },
                }
            },
        }
    }
    proof {
        assert(text@.skip(cur as int) =~= Seq::<char>::empty());
    }
    None
}

// ------------------------------------------------------------------
// The manifest document
// ------------------------------------------------------------------

/// The manifest format number and metadata read off a whole manifest
/// document.
pub open spec fn spec_parse_manifest(s: Seq<char>) -> Option<(int, MetaV)> {
    match spec_expect(s, "manifest = "@) {
        None => None,
        Some(r1) => match spec_take_number(r1) {
            None => None,
            Some((mversion, r2)) => match spec_expect(r2, "\n[metadata]\nname = "@) {
                None => None,
                Some(r3) => match spec_parse_string(r3) {
                    None => None,
                    Some((name, r4)) => match spec_expect(r4, "\nguid = "@) {
                        None => None,
                        Some(r5) => match spec_parse_string(r5) {
                            None => None,
                            Some((guid, r6)) => match spec_expect(r6, "\nauthor = "@) {
                                None => None,
                                Some(r7) => match spec_parse_string(r7) {
                                    None => None,
                                    Some((author, r8)) => match spec_expect(r8, "\nversion = "@) {
                                        None => None,
                                        Some(r9) => match spec_parse_string(r9) {
                                            None => None,
                                            Some((version, r10)) => match spec_expect(
                                                r10,
                                                "\ndepends = "@,
                                            ) {
                                                Some(r11) => match spec_parse_dep_list(r11) {
                                                    None => None,
                                                    Some((depends, r12)) => match spec_expect(
                                                        r12,
                                                        "\n"@,
                                                    ) {
                                                        None => None,
                                                        Some(r13) => if r13.len() == 0 {
                                                            Some(
                                                                (
                                                                    mversion,
                                                                    MetaV {
                                                                        name,
                                                                        guid,
                                                                        author,
                                                                        version,
                                                                        depends,
                                                                    },
                                                                ),
                                                            )
                                                        } else {
                                                            None
                                                        },
                                                    },
                                                },
                                                None => match spec_expect(r10, "\n"@) {
                                                    None => None,
                                                    Some(r11) => if r11.len() == 0 {
                                                        Some(
                                                            (
                                                                mversion,
                                                                MetaV {
                                                                    name,
                                                                    guid,
                                                                    author,
                                                                    version,
                                                                    depends: Seq::empty(),
                                                                },
                                                            ),
                                                        )
                                                    } else {
                                                        None
                                                    },
                                                },
                                            },
                                        },
                                    },
                                },
                            },
                        },
                    },
                },
            },
        },
    }
}

impl ModFile {
    /// Reads a manifest document into a mod-file value not yet tied to an
    /// archive: empty path and entry list. Fails when the document is
    /// malformed or its format number does not fit.
    pub fn parse_mod_metadata(contents: &str) -> (r: Result<ModFile, String>)
        ensures
            match r {
                Ok(mf) => spec_parse_manifest(contents@) == Some(
                    (mf@.manifest, mf@.metadata),
                ) && mf@.filepath == Seq::<char>::empty() && mf@.entries == Seq::<
                    Seq<char>,
                >::empty(),
                Err(m) => spec_parse_manifest(contents@) matches Some((v, meta)) ==> v
                    > i32::MAX as int,
            },
    {
        let ghost s = contents@;
        proof {
            assert(s.skip(0) =~= s);
        }
        let p1 = match expect_lit(contents, 0, "manifest = ") {
            None => {
                return Err(String::from_str("manifest: missing format number"));
            },
            Some(p) => p,
        };
        let (manifest, p2) = match parse_number(contents, p1) {
            None => {
                return Err(String::from_str("manifest: bad format number"));
            },
            Some(x) => x,
        };
        let p3 = match expect_lit(contents, p2, "\n[metadata]\nname = ") {
            None => {
                return Err(String::from_str("manifest: missing metadata name"));
            },
            Some(p) => p,
        };
        let (name, p4) = match parse_string(contents, p3) {
            None => {
                return Err(String::from_str("manifest: bad name"));
            },
            Some(x) => x,
        };
        let p5 = match expect_lit(contents, p4, "\nguid = ") {
            None => {
                return Err(String::from_str("manifest: missing guid"));
            },
            Some(p) => p,
        };
        let (guid, p6) = match parse_string(contents, p5) {
            None => {
                return Err(String::from_str("manifest: bad guid"));
            },
            Some(x) => x,
        };
        let p7 = match expect_lit(contents, p6, "\nauthor = ") {
            None => {
                return Err(String::from_str("manifest: missing author"));
            },
            Some(p) => p,
        };
        let (author, p8) = match parse_string(contents, p7) {
            None => {
                return Err(String::from_str("manifest: bad author"));
            },
            Some(x) => x,
        };
        let p9 = match expect_lit(contents, p8, "\nversion = ") {
            None => {
                return Err(String::from_str("manifest: missing version"));
            },
            Some(p) => p,
        };
        let (version, p10) = match parse_string(contents, p9) {
            None => {
                return Err(String::from_str("manifest: bad version"));
            },
            Some(x) => x,
        };
        let total = contents.unicode_len();
        match expect_lit(contents, p10, "\ndepends = ") {
            Some(p11) => {
                let (depends, p12) = match parse_dep_list(contents, p11) {
                    None => {
                        return Err(String::from_str("manifest: bad dependency list"));
                    },
                    Some(x) => x,
                };
                let p13 = match expect_lit(contents, p12, "\n") {
                    None => {
                        return Err(String::from_str("manifest: trailing content"));
                    },
                    Some(p) => p,
                };
                if p13 != total {
                    proof {
                        assert(contents@.skip(p13 as int).len() > 0);
                    }
                    return Err(String::from_str("manifest: trailing content"));
                }
                proof {
                    assert(contents@.skip(p13 as int).len() == 0);
                }
                let mf = ModFile {
                    manifest,
                    metadata: ModMetaData { name, guid, author, version, depends },
                    filepath: String::new(),
                    entries: Vec::new(),
                };
                proof {
                    assert(mf@.entries =~= Seq::<Seq<char>>::empty());
                }
                Ok(mf)
            },
            None => {
                let p11 = match expect_lit(contents, p10, "\n") {
                    None => {
                        return Err(String::from_str("manifest: trailing content"));
                    },
                    Some(p) => p,
                };
                if p11 != total {
                    proof {
                        assert(contents@.skip(p11 as int).len() > 0);
                    }
                    return Err(String::from_str("manifest: trailing content"));
                }
                proof {
                    assert(contents@.skip(p11 as int).len() == 0);
                }
                let depends: Vec<ModDependencyEnum> = Vec::new();
                proof {
                    assert(depends.deep_view() =~= Seq::<DepRefV>::empty());
                }
                let mf = ModFile {
                    manifest,
                    metadata: ModMetaData { name, guid, author, version, depends },
                    filepath: String::new(),
                    entries: Vec::new(),
                };
                proof {
                    assert(mf@.entries =~= Seq::<Seq<char>>::empty());
                }
                Ok(mf)
            },
        }
    }

    /// Reads and checks a discovered mod archive's manifest: the manifest
    /// document is parsed and the metadata's semantics validated; on success
    /// the mod file carries the archive's path and entry names. A mod whose
    /// manifest is malformed or whose metadata is not well formed is rejected.
    pub fn new(filepath: String, contents: &str, entries: Vec<String>) -> (r: Result<
        ModFile,
        String,
    >)
        ensures
            match r {
                Ok(mf) => {
                    &&& spec_parse_manifest(contents@) == Some((mf@.manifest, mf@.metadata))
                    &&& meta_wf(mf@.metadata)
                    &&& mf@.filepath == filepath@
                    &&& mf@.entries == entries.deep_view()
                },
                Err(m) => match spec_parse_manifest(contents@) {
                    Some((v, meta)) => v > i32::MAX as int || !meta_wf(meta),
                    None => true,
                },
            },
    {
        let mut mod_file = match Self::parse_mod_metadata(contents) {
            Err(e) => {
                return Err(e);
            },
            Ok(mf) => mf,
        };
        match mod_file.metadata.validate_semantics() {
            Err(e) => {
                let mut msg = mod_file.metadata.guid;
                msg.append("'s semantics check failed: ");
                msg.append(e.as_str());
                Err(msg)
            },
            Ok(_) => {
                mod_file.filepath = filepath;
                mod_file.entries = entries;
                Ok(mod_file)
            },
        }
    }
}

} // verus!
