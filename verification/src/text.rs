//! Small verified helpers over strings: searching for a character, suffix
//! tests, and equality, stated over the character sequences of the strings.

use vstd::prelude::*;

verus! {

/// Index of the first occurrence of `c` in `s`, if any.
pub open spec fn find_char(s: Seq<char>, c: char) -> Option<int>
    decreases s.len(),
{
    if s.len() == 0 {
        None
    } else if s[0] == c {
        Some(0)
    } else {
        match find_char(s.skip(1), c) {
            None => None,
            Some(i) => Some(i + 1),
        }
    }
}

/// What `find_char` returns: the first index holding `c`, or `None` when no
/// index does.
pub proof fn lemma_find_char(s: Seq<char>, c: char)
    ensures
        match find_char(s, c) {
            Some(i) => 0 <= i < s.len() && s[i] == c && (forall|j: int| 0 <= j < i ==> s[j] != c),
            None => forall|j: int| 0 <= j < s.len() ==> s[j] != c,
        },
    decreases s.len(),
{
    if s.len() > 0 && s[0] != c {
        lemma_find_char(s.skip(1), c);
        assert forall|j: int| 0 < j < s.len() implies s.skip(1)[j - 1] == s[j] by {
            assert(s.skip(1)[j - 1] == s[j]);
        }
    }
}

/// `find_char` is determined by any witness of a first occurrence.
pub proof fn lemma_find_char_is(s: Seq<char>, c: char, i: int)
    requires
        0 <= i < s.len(),
        s[i] == c,
        forall|j: int| 0 <= j < i ==> s[j] != c,
    ensures
        find_char(s, c) == Some(i),
    decreases s.len(),
{
    if i > 0 {
        lemma_find_char_is(s.skip(1), c, i - 1);
        assert forall|j: int| 0 <= j < i - 1 implies s.skip(1)[j] != c by {
            assert(s.skip(1)[j] == s[j + 1]);
        }
    }
}

/// `find_char` returns `None` when no index holds `c`.
pub proof fn lemma_find_char_none(s: Seq<char>, c: char)
    requires
        forall|j: int| 0 <= j < s.len() ==> s[j] != c,
    ensures
        find_char(s, c) == None::<int>,
    decreases s.len(),
{
    if s.len() > 0 {
        assert forall|j: int| 0 <= j < s.len() - 1 implies s.skip(1)[j] != c by {
            assert(s.skip(1)[j] == s[j + 1]);
        }
        lemma_find_char_none(s.skip(1), c);
    }
}

/// First index of `c` in `s`, scanning character by character.
pub fn find_char_str(s: &str, c: char) -> (r: Option<usize>)
    ensures
        match r {
            Some(i) => find_char(s@, c) == Some(i as int),
            None => find_char(s@, c) == None::<int>,
        },
{
    let n = s.unicode_len();
    let mut i: usize = 0;
    while i < n
        invariant
            0 <= i <= n,
            n == s@.len(),
            forall|j: int| 0 <= j < i ==> s@[j] != c,
        decreases n - i,
    {
        if s.get_char(i) == c {
            proof {
                lemma_find_char_is(s@, c, i as int);
            }
            return Some(i);
        }
        i = i + 1;
    }
    proof {
        lemma_find_char_none(s@, c);
    }
    None
}

/// The strings of `items` joined by `sep`.
pub open spec fn spec_join(items: Seq<Seq<char>>, sep: Seq<char>) -> Seq<char>
    decreases items.len(),
{
    if items.len() == 0 {
        Seq::empty()
    } else if items.len() == 1 {
        items[0]
    } else {
        items[0] + sep + spec_join(items.drop_first(), sep)
    }
}

/// Joining one more string appends a separator and the string.
pub proof fn lemma_join_snoc(items: Seq<Seq<char>>, sep: Seq<char>, x: Seq<char>)
    requires
        items.len() > 0,
    ensures
        spec_join(items.push(x), sep) == spec_join(items, sep) + sep + x,
    decreases items.len(),
{
    let p = items.push(x);
    assert(p[0] == items[0]);
    if items.len() == 1 {
        assert(p.drop_first() =~= seq![x]);
        assert(seq![x][0] == x);
        assert(spec_join(p.drop_first(), sep) == x);
    } else {
        assert(p.drop_first() =~= items.drop_first().push(x));
        lemma_join_snoc(items.drop_first(), sep, x);
        assert(items[0] + sep + (spec_join(items.drop_first(), sep) + sep + x) =~= (items[0] + sep
            + spec_join(items.drop_first(), sep)) + sep + x);
    }
}

/// Joins the strings of `items` with the separator `sep`.
pub fn join_strings(items: &Vec<String>, sep: &str) -> (r: String)
    ensures
        r@ == spec_join(items.deep_view(), sep@),
{
    let ghost itemsv = items.deep_view();
    let mut out = String::new();
    let mut k: usize = 0;
    proof {
        assert(itemsv.take(0) =~= Seq::<Seq<char>>::empty());
    }
    while k < items.len()
        invariant
            itemsv == items.deep_view(),
            itemsv.len() == items.len(),
            0 <= k <= items.len(),
            out@ == spec_join(itemsv.take(k as int), sep@),
        decreases items.len() - k,
    {
        proof {
            assert(itemsv[k as int] == items@[k as int]@);
            assert(itemsv.take(k as int + 1) =~= itemsv.take(k as int).push(itemsv[k as int]));
        }
        if k > 0 {
            out.append(sep);
            out.append(items[k].as_str());
            proof {
                lemma_join_snoc(itemsv.take(k as int), sep@, itemsv[k as int]);
            }
        } else {
            out.append(items[k].as_str());
            proof {
                assert(itemsv.take(1)[0] == itemsv[0]);
            }
        }
        k = k + 1;
    }
    proof {
        assert(itemsv.take(itemsv.len() as int) =~= itemsv);
    }
    out
}

/// Whether `suffix` is a suffix of `s`.
pub open spec fn ends_with(s: Seq<char>, suffix: Seq<char>) -> bool {
    s.len() >= suffix.len() && s.skip(s.len() - suffix.len()) == suffix
}

/// Equality of two string slices, by way of owned copies.
pub fn str_eq(a: &str, b: &str) -> (r: bool)
    ensures
        r == (a@ == b@),
{
    let sa = String::from_str(a);
    let sb = String::from_str(b);
    sa == sb
}

// ------------------------------------------------------------------
// Consuming parsers over character sequences
// ------------------------------------------------------------------

/// Relies on String::push: it appends the given character to the end of the
/// string. vstd specifies no `push` on strings.
pub assume_specification[ String::push ](s: &mut String, ch: char)
    ensures
        final (s)@ == old(s)@ + seq![ch],
;

/// The rest of `s` after the exact prefix `lit`, when `s` starts with it.
pub open spec fn spec_expect(s: Seq<char>, lit: Seq<char>) -> Option<Seq<char>> {
    if s.len() >= lit.len() && s.take(lit.len() as int) == lit {
        Some(s.skip(lit.len() as int))
    } else {
        None
    }
}

/// Expecting a literal consumes exactly that literal.
pub proof fn lemma_expect_round_trip(lit: Seq<char>, rest: Seq<char>)
    ensures
        spec_expect(lit + rest, lit) == Some(rest),
{
    assert((lit + rest).take(lit.len() as int) =~= lit);
    assert((lit + rest).skip(lit.len() as int) =~= rest);
}

/// Consumes the exact literal `lit` at position `pos` of `text`.
pub fn expect_lit(text: &str, pos: usize, lit: &str) -> (r: Option<usize>)
    requires
        pos <= text@.len(),
    ensures
        match r {
            Some(p) => pos <= p <= text@.len() && spec_expect(text@.skip(pos as int), lit@) == Some(
                text@.skip(p as int),
            ),
            None => spec_expect(text@.skip(pos as int), lit@) == None::<Seq<char>>,
        },
{
    let ghost s = text@.skip(pos as int);
    let n = lit.unicode_len();
    let total = text.unicode_len();
    if total - pos < n {
        return None;
    }
    let mut j: usize = 0;
    while j < n
        invariant
            pos <= text@.len(),
            text@.len() <= usize::MAX,
            s == text@.skip(pos as int),
            n == lit@.len(),
            n <= text@.len() - pos,
            0 <= j <= n,
            forall|k: int| 0 <= k < j ==> s[k] == lit@[k],
        decreases n - j,
    {
        proof {
            assert(s[j as int] == text@[pos + j]);
        }
        if text.get_char(pos + j) != lit.get_char(j) {
            proof {
                assert(s.take(n as int)[j as int] != lit@[j as int]);
            }
            return None;
        }
        j = j + 1;
    }
    proof {
        assert(s.take(n as int) =~= lit@);
        assert(s.skip(n as int) =~= text@.skip(pos + n));
    }
    Some(pos + n)
}

/// The contents of a literal string read up to its closing quote, and the
/// rest of the input after the quote. Literal strings do not span lines.
pub open spec fn spec_take_until_quote(s: Seq<char>) -> Option<(Seq<char>, Seq<char>)>
    decreases s.len(),
{
    if s.len() == 0 {
        None
    } else if s[0] == '\'' {
        Some((Seq::empty(), s.drop_first()))
    } else if s[0] == '\n' {
        None
    } else {
        match spec_take_until_quote(s.drop_first()) {
            None => None,
            Some((content, rest)) => Some((seq![s[0]] + content, rest)),
        }
    }
}

/// Reading up to a quote consumes at least the quote.
pub proof fn lemma_take_until_quote_len(s: Seq<char>)
    ensures
        spec_take_until_quote(s) matches Some((content, rest)) ==> rest.len() < s.len(),
    decreases s.len(),
{
    if s.len() > 0 && s[0] != '\'' && s[0] != '\n' {
        lemma_take_until_quote_len(s.drop_first());
    }
}

/// Whether `s` may be written as a literal string: no quote to end it early,
/// no line break.
pub open spec fn lit_str_ok(s: Seq<char>) -> bool {
    forall|i: int| 0 <= i < s.len() ==> s[i] != '\'' && s[i] != '\n' && s[i] != '\r'
}

/// Reading a serialized literal string gives back its contents exactly.
pub proof fn lemma_take_until_quote_round_trip(content: Seq<char>, rest: Seq<char>)
    requires
        lit_str_ok(content),
    ensures
        spec_take_until_quote(content + seq!['\''] + rest) == Some((content, rest)),
    decreases content.len(),
{
    let s = content + seq!['\''] + rest;
    if content.len() == 0 {
        assert(s[0] == '\'');
        assert(s.drop_first() =~= rest);
    } else {
        assert(s[0] == content[0]);
        assert(content.drop_first() + seq!['\''] + rest =~= s.drop_first());
        assert forall|i: int| 0 <= i < content.drop_first().len() implies content.drop_first()[i]
            != '\'' && content.drop_first()[i] != '\n' && content.drop_first()[i] != '\r' by {
            assert(content.drop_first()[i] == content[i + 1]);
        }
        lemma_take_until_quote_round_trip(content.drop_first(), rest);
        assert(seq![s[0]] + content.drop_first() =~= content);
    }
}

/// Reads a literal string's contents at position `pos` of `text`, up to the
/// closing quote.
pub fn take_until_quote(text: &str, pos: usize) -> (r: Option<(String, usize)>)
    requires
        pos <= text@.len(),
    ensures
        match r {
            Some((content, p)) => pos <= p <= text@.len() && spec_take_until_quote(
                text@.skip(pos as int),
            ) == Some((content@, text@.skip(p as int))),
            None => spec_take_until_quote(text@.skip(pos as int)) == None::<(Seq<char>, Seq<char>)>,
        },
{
    let ghost s = text@.skip(pos as int);
    let n = text.unicode_len();
    let mut i: usize = pos;
    while i < n
        invariant
            pos <= i <= n,
            n == text@.len(),
            s == text@.skip(pos as int),
            forall|k: int| 0 <= k < i - pos ==> s[k] != '\'' && s[k] != '\n',
        decreases n - i,
    {
        proof {
            assert(s[i - pos] == text@[i as int]);
        }
        let c = text.get_char(i);
        if c == '\'' {
            let content = String::from_str(text.substring_char(pos, i));
            proof {
                assert(content@ =~= s.take(i - pos));
                lemma_take_until_prefix(s, i - pos);
                assert(s.skip(i - pos + 1) =~= text@.skip(i as int + 1));
            }
            return Some((content, i + 1));
        }
        if c == '\n' {
            proof {
                lemma_take_until_fails(s, i - pos);
            }
            return None;
        }
        i = i + 1;
    }
    proof {
        lemma_take_until_exhausted(s);
    }
    None
}

/// Reading up to a quote at index `k` yields the prefix before it.
proof fn lemma_take_until_prefix(s: Seq<char>, k: int)
    requires
        0 <= k < s.len(),
        s[k] == '\'',
        forall|j: int| 0 <= j < k ==> s[j] != '\'' && s[j] != '\n',
    ensures
        spec_take_until_quote(s) == Some((s.take(k), s.skip(k + 1))),
    decreases k,
{
    if k == 0 {
        assert(s.take(0) =~= Seq::<char>::empty());
        assert(s.drop_first() =~= s.skip(1));
    } else {
        assert forall|j: int| 0 <= j < k - 1 implies s.drop_first()[j] != '\'' && s.drop_first()[j]
            != '\n' by {
            assert(s.drop_first()[j] == s[j + 1]);
        }
        lemma_take_until_prefix(s.drop_first(), k - 1);
        assert(s.drop_first().take(k - 1) =~= s.take(k).drop_first());
        assert(seq![s[0]] + s.take(k).drop_first() =~= s.take(k));
        assert(s.drop_first().skip(k) =~= s.skip(k + 1));
    }
}

/// Reading up to a quote fails on a line break at index `k`.
proof fn lemma_take_until_fails(s: Seq<char>, k: int)
    requires
        0 <= k < s.len(),
        s[k] == '\n',
        forall|j: int| 0 <= j < k ==> s[j] != '\'' && s[j] != '\n',
    ensures
        spec_take_until_quote(s) == None::<(Seq<char>, Seq<char>)>,
    decreases k,
{
    if k > 0 {
        assert forall|j: int| 0 <= j < k - 1 implies s.drop_first()[j] != '\'' && s.drop_first()[j]
            != '\n' by {
            assert(s.drop_first()[j] == s[j + 1]);
        }
        lemma_take_until_fails(s.drop_first(), k - 1);
    }
}

/// Reading up to a quote fails when no quote or line break follows.
proof fn lemma_take_until_exhausted(s: Seq<char>)
    requires
        forall|j: int| 0 <= j < s.len() ==> s[j] != '\'' && s[j] != '\n',
    ensures
        spec_take_until_quote(s) == None::<(Seq<char>, Seq<char>)>,
    decreases s.len(),
{
    if s.len() > 0 {
        assert forall|j: int| 0 <= j < s.len() - 1 implies s.drop_first()[j] != '\''
            && s.drop_first()[j] != '\n' by {
            assert(s.drop_first()[j] == s[j + 1]);
        }
        lemma_take_until_exhausted(s.drop_first());
    }
}

/// Whether `suffix` is a suffix of `s`, as character sequences.
pub fn ends_with_str(s: &str, suffix: &str) -> (r: bool)
    ensures
        r == ends_with(s@, suffix@),
{
    let n = s.unicode_len();
    let m = suffix.unicode_len();
    if n < m {
        return false;
    }
    let tail = s.substring_char(n - m, n);
    let r = str_eq(tail, suffix);
    proof {
        assert(s@.subrange(n - m, n as int) =~= s@.skip(s@.len() - suffix@.len()));
    }
    r
}

} // verus!
