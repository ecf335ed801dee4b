//! The persisted application configuration: the game's installation root,
//! the GUIDs of the selected mods, and the files that currently differ from
//! the origin snapshot.

use vstd::prelude::*;

use crate::text::{lemma_expect_round_trip, lemma_take_until_quote_len};
use crate::text::{lemma_take_until_quote_round_trip, lit_str_ok, spec_expect};
use crate::text::{expect_lit, spec_take_until_quote, take_until_quote};

verus! {

/// Mathematical value of the persisted game configuration record.
#[verifier::ext_equal]
pub ghost struct DataWinConfigV {
    pub game_root: Seq<char>,
    pub active_mods: Seq<Seq<char>>,
    pub replaced_files: Seq<Seq<char>>,
}

/// The persisted game configuration record. `replaced_files` mirrors exactly
/// the paths, relative to `game_root`, that currently differ from the origin
/// snapshot; it is the sole input of a reset pass.
#[derive(Clone, Debug)]
pub struct DataWinConfig {
    pub game_root: String,
    pub active_mods: Vec<String>,
    pub replaced_files: Vec<String>,
}

impl View for DataWinConfig {
    type V = DataWinConfigV;

    open spec fn view(&self) -> DataWinConfigV {
        DataWinConfigV {
            game_root: self.game_root@,
            active_mods: self.active_mods.deep_view(),
            replaced_files: self.replaced_files.deep_view(),
        }
    }
}

impl DeepView for DataWinConfig {
    type V = DataWinConfigV;

    open spec fn deep_view(&self) -> DataWinConfigV {
        self.view()
    }
}

/// The character sequence of the default game root.
pub open spec fn default_game_root() -> Seq<char> {
    "C:\\Program Files (x86)\\Steam\\steamapps\\common\\ZeroRanger"@
}

impl Default for DataWinConfig {
    /// The configuration for a fresh install: the game's usual location and
    /// no mods applied.
    fn default() -> (r: Self)
        ensures
            r@.game_root == default_game_root(),
            r@.active_mods == Seq::<Seq<char>>::empty(),
            r@.replaced_files == Seq::<Seq<char>>::empty(),
    {
        let game_root = String::from_str(
            "C:\\Program Files (x86)\\Steam\\steamapps\\common\\ZeroRanger",
        );
        let r = DataWinConfig { game_root, active_mods: Vec::new(), replaced_files: Vec::new() };
        proof {
            assert(r@.active_mods =~= Seq::<Seq<char>>::empty());
            assert(r@.replaced_files =~= Seq::<Seq<char>>::empty());
        }
        r
    }
}

impl DataWinConfig {
    /// A copy of this record with the same mathematical value.
    pub fn dup(&self) -> (r: Self)
        ensures
            r@ == self@,
    {
        let r = DataWinConfig {
            game_root: self.game_root.clone(),
            active_mods: self.active_mods.clone(),
            replaced_files: self.replaced_files.clone(),
        };
        proof {
            assert(r.active_mods@ =~= self.active_mods@);
            assert(r.replaced_files@ =~= self.replaced_files@);
            assert(r.active_mods.deep_view() =~= self.active_mods.deep_view());
            assert(r.replaced_files.deep_view() =~= self.replaced_files.deep_view());
            assert(r@ =~= self@);
        }
        r
    }
}

/// Mathematical value of the application configuration.
#[verifier::ext_equal]
pub ghost struct AppConfigV {
    pub data_win: DataWinConfigV,
    pub filepath: Seq<char>,
}

/// The application configuration: the persisted record plus the path the
/// record is stored at (never itself persisted).
#[derive(Clone, Debug)]
pub struct AppConfig {
    pub data_win: DataWinConfig,
    pub filepath: String,
}

impl View for AppConfig {
    type V = AppConfigV;

    open spec fn view(&self) -> AppConfigV {
        AppConfigV { data_win: self.data_win@, filepath: self.filepath@ }
    }
}

impl DeepView for AppConfig {
    type V = AppConfigV;

    open spec fn deep_view(&self) -> AppConfigV {
        self.view()
    }
}

impl Default for AppConfig {
    /// A fresh configuration, not yet tied to a file on disk.
    fn default() -> (r: Self)
        ensures
            r@.data_win.game_root == default_game_root(),
            r@.data_win.active_mods == Seq::<Seq<char>>::empty(),
            r@.data_win.replaced_files == Seq::<Seq<char>>::empty(),
            r@.filepath == Seq::<char>::empty(),
    {
        AppConfig { data_win: DataWinConfig::default(), filepath: String::new() }
    }
}

impl AppConfig {
    /// A copy of this configuration with the same mathematical value.
    pub fn dup(&self) -> (r: Self)
        ensures
            r@ == self@,
    {
        let r = AppConfig { data_win: self.data_win.dup(), filepath: self.filepath.clone() };
        proof {
            assert(r@ =~= self@);
        }
        r
    }
}

// ------------------------------------------------------------------
// The configuration document
// ------------------------------------------------------------------
//
// The configuration is persisted as a small structured text document of
// fixed, canonical shape, with strings written as single-quoted literals:
//
//     [data_win]
//     game_root = '...'
//     active_mods = ['...', '...']
//     replaced_files = ['...']
//
// The reader accepts exactly the canonical form the writer emits, so the
// codec round-trips: parsing a serialized configuration gives the
// configuration back.

/// A string written as a single-quoted literal.
pub open spec fn spec_lit(s: Seq<char>) -> Seq<char> {
    seq!['\''] + s + seq!['\'']
}

/// The items of a string array, comma-separated, without the brackets.
pub open spec fn spec_items(items: Seq<Seq<char>>) -> Seq<char>
    decreases items.len(),
{
    if items.len() == 0 {
        Seq::empty()
    } else if items.len() == 1 {
        spec_lit(items[0])
    } else {
        spec_lit(items[0]) + ", "@ + spec_items(items.drop_first())
    }
}

/// A string array with its brackets.
pub open spec fn spec_str_list(items: Seq<Seq<char>>) -> Seq<char> {
    "["@ + spec_items(items) + "]"@
}

/// The serialized form of the persisted configuration record.
pub open spec fn spec_config_doc(c: DataWinConfigV) -> Seq<char> {
    "[data_win]\ngame_root = "@ + spec_lit(c.game_root) + "\nactive_mods = "@ + spec_str_list(
        c.active_mods,
    ) + "\nreplaced_files = "@ + spec_str_list(c.replaced_files) + "\n"@
}

/// A single-quoted literal string read off the front of `s`: its contents and
/// the rest of the input.
pub open spec fn spec_parse_litstr(s: Seq<char>) -> Option<(Seq<char>, Seq<char>)> {
    if s.len() > 0 && s[0] == '\'' {
        spec_take_until_quote(s.drop_first())
    } else {
        None
    }
}

/// Reading a literal string consumes at least its two quotes.
pub proof fn lemma_parse_litstr_len(s: Seq<char>)
    ensures
        spec_parse_litstr(s) matches Some((content, rest)) ==> rest.len() + 2 <= s.len(),
{
    if s.len() > 0 && s[0] == '\'' {
        lemma_take_until_quote_len(s.drop_first());
    }
}

/// Reading a serialized literal string gives its contents back.
pub proof fn lemma_parse_litstr_round_trip(content: Seq<char>, rest: Seq<char>)
    requires
        lit_str_ok(content),
    ensures
        spec_parse_litstr(spec_lit(content) + rest) == Some((content, rest)),
{
    let s = spec_lit(content) + rest;
    assert(s[0] == '\'');
    assert(s.drop_first() =~= content + seq!['\''] + rest);
    lemma_take_until_quote_round_trip(content, rest);
}

/// One or more comma-separated literal strings followed by the closing
/// bracket, read off the front of `s`.
pub open spec fn spec_parse_items(s: Seq<char>) -> Option<(Seq<Seq<char>>, Seq<char>)>
    decreases s.len(),
{
    match spec_parse_litstr(s) {
        None => None,
        Some((first, rest)) => {
            proof {
                lemma_parse_litstr_len(s);
            }
            match spec_expect(rest, ", "@) {
                Some(rest2) => match spec_parse_items(rest2) {
                    None => None,
                    Some((more, rest3)) => Some((seq![first] + more, rest3)),
                },
                None => match spec_expect(rest, "]"@) {
                    Some(rest2) => Some((seq![first], rest2)),
                    None => None,
                },
            }
        },
    }
}

/// A bracketed string array read off the front of `s`.
pub open spec fn spec_parse_str_list(s: Seq<char>) -> Option<(Seq<Seq<char>>, Seq<char>)> {
    match spec_expect(s, "["@) {
        None => None,
        Some(rest) => match spec_expect(rest, "]"@) {
            Some(rest2) => Some((Seq::empty(), rest2)),
            None => match spec_parse_items(rest) {
                None => None,
                Some((items, rest2)) => Some((items, rest2)),
            },
        },
    }
}

/// Whether every string of a list can be written as a literal.
pub open spec fn lit_strs_ok(items: Seq<Seq<char>>) -> bool {
    forall|i: int| 0 <= i < items.len() ==> lit_str_ok(#[trigger] items[i])
}

/// Reading serialized array items gives the items back.
pub proof fn lemma_parse_items_round_trip(items: Seq<Seq<char>>, rest: Seq<char>)
    requires
        items.len() > 0,
        lit_strs_ok(items),
    ensures
        spec_parse_items(spec_items(items) + "]"@ + rest) == Some((items, rest)),
    decreases items.len(),
{
    reveal_strlit(", ");
    reveal_strlit("]");
    let s = spec_items(items) + "]"@ + rest;
    if items.len() == 1 {
        let tail = "]"@ + rest;
        assert(s =~= spec_lit(items[0]) + tail);
        lemma_parse_litstr_round_trip(items[0], tail);
        // the closing bracket is not a comma, so no further item is read
        assert(spec_expect(tail, ", "@) == None::<Seq<char>>) by {
            if tail.len() >= 2 && tail.take(2) == ", "@ {
                assert(tail.take(2)[0] == ']');
                assert((", "@)[0] == ',');
            }
        }
        lemma_expect_round_trip("]"@, rest);
        assert(seq![items[0]] =~= items);
    } else {
        let tail = ", "@ + spec_items(items.drop_first()) + "]"@ + rest;
        assert(s =~= spec_lit(items[0]) + tail);
        lemma_parse_litstr_round_trip(items[0], tail);
        assert(tail =~= ", "@ + (spec_items(items.drop_first()) + "]"@ + rest));
        lemma_expect_round_trip(", "@, spec_items(items.drop_first()) + "]"@ + rest);
        assert(lit_strs_ok(items.drop_first())) by {
            assert forall|i: int| 0 <= i < items.drop_first().len() implies lit_str_ok(
                #[trigger] items.drop_first()[i],
            ) by {
                assert(items.drop_first()[i] == items[i + 1]);
            }
        }
        lemma_parse_items_round_trip(items.drop_first(), rest);
        assert(seq![items[0]] + items.drop_first() =~= items);
    }
}

/// Reading a serialized string array gives the array back.
pub proof fn lemma_parse_str_list_round_trip(items: Seq<Seq<char>>, rest: Seq<char>)
    requires
        lit_strs_ok(items),
    ensures
        spec_parse_str_list(spec_str_list(items) + rest) == Some((items, rest)),
{
    reveal_strlit("[");
    reveal_strlit("]");
    let s = spec_str_list(items) + rest;
    assert(s =~= "["@ + (spec_items(items) + "]"@ + rest));
    lemma_expect_round_trip("["@, spec_items(items) + "]"@ + rest);
    let rest1 = spec_items(items) + "]"@ + rest;
    if items.len() == 0 {
        assert(rest1 =~= "]"@ + rest);
        lemma_expect_round_trip("]"@, rest);
        assert(Seq::<Seq<char>>::empty() =~= items);
    } else {
        // a literal string opens with a quote, not with the closing bracket
        assert(spec_expect(rest1, "]"@) == None::<Seq<char>>) by {
            assert(rest1[0] == spec_lit(items[0])[0]);
            assert(rest1[0] == '\'');
            if rest1.len() >= 1 && rest1.take(1) == "]"@ {
                assert(rest1.take(1)[0] == ']');
            }
        }
        lemma_parse_items_round_trip(items, rest);
    }
}

/// The persisted record read off a whole configuration document.
pub open spec fn spec_parse_config(s: Seq<char>) -> Option<DataWinConfigV> {
    match spec_expect(s, "[data_win]\ngame_root = "@) {
        None => None,
        Some(r1) => match spec_parse_litstr(r1) {
            None => None,
            Some((game_root, r2)) => match spec_expect(r2, "\nactive_mods = "@) {
                None => None,
                Some(r3) => match spec_parse_str_list(r3) {
                    None => None,
                    Some((active_mods, r4)) => match spec_expect(r4, "\nreplaced_files = "@) {
                        None => None,
                        Some(r5) => match spec_parse_str_list(r5) {
                            None => None,
                            Some((replaced_files, r6)) => match spec_expect(r6, "\n"@) {
                                None => None,
                                Some(r7) => if r7.len() == 0 {
                                    Some(
                                        DataWinConfigV {
                                            game_root,
                                            active_mods,
                                            replaced_files,
                                        },
                                    )
                                } else {
                                    None
                                },
                            },
                        },
                    },
                },
            },
        },
    }
}

/// Whether a persisted record can be written in the canonical document form.
pub open spec fn config_strings_ok(c: DataWinConfigV) -> bool {
    lit_str_ok(c.game_root) && lit_strs_ok(c.active_mods) && lit_strs_ok(c.replaced_files)
}

/// Law: the configuration codec round-trips. Parsing the serialized form of
/// any writable record gives the record back.
#[verifier::rlimit(60)]
pub proof fn lemma_config_round_trip(c: DataWinConfigV)
    requires
        config_strings_ok(c),
    ensures
        spec_parse_config(spec_config_doc(c)) == Some(c),
{
    let doc = spec_config_doc(c);
    let r1 = spec_lit(c.game_root) + "\nactive_mods = "@ + spec_str_list(c.active_mods)
        + "\nreplaced_files = "@ + spec_str_list(c.replaced_files) + "\n"@;
    assert(doc =~= "[data_win]\ngame_root = "@ + r1);
    lemma_expect_round_trip("[data_win]\ngame_root = "@, r1);
    let r2 = "\nactive_mods = "@ + spec_str_list(c.active_mods) + "\nreplaced_files = "@
        + spec_str_list(c.replaced_files) + "\n"@;
    assert(r1 =~= spec_lit(c.game_root) + r2);
    lemma_parse_litstr_round_trip(c.game_root, r2);
    let r3 = spec_str_list(c.active_mods) + "\nreplaced_files = "@ + spec_str_list(
        c.replaced_files,
    ) + "\n"@;
    assert(r2 =~= "\nactive_mods = "@ + r3);
    lemma_expect_round_trip("\nactive_mods = "@, r3);
    let r4 = "\nreplaced_files = "@ + spec_str_list(c.replaced_files) + "\n"@;
    assert(r3 =~= spec_str_list(c.active_mods) + r4);
    lemma_parse_str_list_round_trip(c.active_mods, r4);
    let r5 = spec_str_list(c.replaced_files) + "\n"@;
    assert(r4 =~= "\nreplaced_files = "@ + r5);
    lemma_expect_round_trip("\nreplaced_files = "@, r5);
    let r6 = "\n"@;
    assert(r5 =~= spec_str_list(c.replaced_files) + r6);
    lemma_parse_str_list_round_trip(c.replaced_files, r6);
    assert(r6 =~= "\n"@ + Seq::<char>::empty());
    lemma_expect_round_trip("\n"@, Seq::empty());
}

/// Appending one more item to a nonempty array's serialization.
pub proof fn lemma_items_snoc(items: Seq<Seq<char>>, x: Seq<char>)
    requires
        items.len() > 0,
    ensures
        spec_items(items.push(x)) == spec_items(items) + ", "@ + spec_lit(x),
    decreases items.len(),
{
    let p = items.push(x);
    assert(p[0] == items[0]);
    if items.len() == 1 {
        assert(p.drop_first() =~= seq![x]);
        assert(seq![x][0] == x);
        assert(spec_items(p.drop_first()) == spec_lit(x));
        assert(spec_items(p) == spec_lit(items[0]) + ", "@ + spec_lit(x));
        assert(spec_items(items) == spec_lit(items[0]));
    } else {
        assert(p.drop_first() =~= items.drop_first().push(x));
        lemma_items_snoc(items.drop_first(), x);
        assert(spec_items(p) == spec_lit(items[0]) + ", "@ + (spec_items(items.drop_first())
            + ", "@ + spec_lit(x)));
        assert(spec_lit(items[0]) + ", "@ + (spec_items(items.drop_first()) + ", "@ + spec_lit(x))
            =~= (spec_lit(items[0]) + ", "@ + spec_items(items.drop_first())) + ", "@ + spec_lit(
            x,
        ));
    }
}

/// Appends `s` as a quoted literal.
fn append_lit(out: &mut String, s: &str)
    ensures
        final (out)@ == old(out)@ + spec_lit(s@),
{
    out.push('\'');
    out.append(s);
    out.push('\'');
    proof {
        assert(out@ =~= old(out)@ + spec_lit(s@));
    }
}

/// Appends a string array in its bracketed serialized form.
fn append_str_list(out: &mut String, items: &Vec<String>)
    ensures
        final (out)@ == old(out)@ + spec_str_list(items.deep_view()),
{
    let ghost itemsv = items.deep_view();
    let ghost out0 = out@;
    out.push('[');
    proof {
        reveal_strlit("[");
        assert(seq!['['] =~= "["@);
        assert(itemsv.take(0) =~= Seq::<Seq<char>>::empty());
        assert(out@ =~= out0 + "["@ + spec_items(itemsv.take(0)));
    }
    let mut k: usize = 0;
    while k < items.len()
        invariant
            itemsv == items.deep_view(),
            itemsv.len() == items.len(),
            0 <= k <= items.len(),
            out@ == out0 + "["@ + spec_items(itemsv.take(k as int)),
        decreases items.len() - k,
    {
        proof {
            assert(itemsv[k as int] == items@[k as int]@);
            assert(itemsv.take(k as int + 1) =~= itemsv.take(k as int).push(itemsv[k as int]));
        }
        if k > 0 {
            out.append(", ");
            append_lit(out, items[k].as_str());
            proof {
                lemma_items_snoc(itemsv.take(k as int), itemsv[k as int]);
                assert(out@ =~= out0 + "["@ + spec_items(itemsv.take(k as int + 1)));
            }
        } else {
            append_lit(out, items[k].as_str());
            proof {
                assert(itemsv.take(1)[0] == itemsv[0]);
                assert(out@ =~= out0 + "["@ + spec_items(itemsv.take(1)));
            }
        }
        k = k + 1;
    }
    out.push(']');
    proof {
        reveal_strlit("]");
        assert(seq![']'] =~= "]"@);
        assert(itemsv.take(itemsv.len() as int) =~= itemsv);
        assert(out@ =~= out0 + spec_str_list(itemsv));
    }
}

/// A quoted literal string at position `pos` of `text`.
fn parse_litstr_exec(text: &str, pos: usize) -> (r: Option<(String, usize)>)
    requires
        pos <= text@.len(),
    ensures
        match r {
            Some((content, p)) => pos <= p <= text@.len() && spec_parse_litstr(
                text@.skip(pos as int),
            ) == Some((content@, text@.skip(p as int))),
            None => spec_parse_litstr(text@.skip(pos as int)) == None::<(Seq<char>, Seq<char>)>,
        },
{
    let ghost s = text@.skip(pos as int);
    let n = text.unicode_len();
    if pos >= n {
        return None;
    }
    proof {
        assert(s[0] == text@[pos as int]);
    }
    if text.get_char(pos) != '\'' {
        return None;
    }
    proof {
        assert(s.drop_first() =~= text@.skip(pos as int + 1));
    }
    take_until_quote(text, pos + 1)
}

/// A bracketed string array at position `pos` of `text`.
fn parse_str_list_exec(text: &str, pos: usize) -> (r: Option<(Vec<String>, usize)>)
    requires
        pos <= text@.len(),
    ensures
        match r {
            Some((items, p)) => pos <= p <= text@.len() && spec_parse_str_list(
                text@.skip(pos as int),
            ) == Some((items.deep_view(), text@.skip(p as int))),
            None => spec_parse_str_list(text@.skip(pos as int)) == None::<(
                Seq<Seq<char>>,
                Seq<char>,
            )>,
        },
{
    let ghost s = text@.skip(pos as int);
    let pos1 = match expect_lit(text, pos, "[") {
        None => {
            return None;
        },
        Some(p) => p,
    };
    match expect_lit(text, pos1, "]") {
        Some(p2) => {
            let items: Vec<String> = Vec::new();
            proof {
                assert(items.deep_view() =~= Seq::<Seq<char>>::empty());
            }
            return Some((items, p2));
        },
        None => {},
    }
    let ghost start = pos1;
    let n = text.unicode_len();
    let mut items: Vec<String> = Vec::new();
    let mut cur = pos1;
    proof {
        assert(items.deep_view() =~= Seq::<Seq<char>>::empty());
        assert(items.deep_view() + Seq::<Seq<char>>::empty() =~= Seq::<Seq<char>>::empty());
    }
    while cur < n
        invariant
            pos <= pos1 <= cur <= text@.len(),
            n == text@.len(),
            s == text@.skip(pos as int),
            start == pos1,
            spec_expect(s, "["@) == Some(text@.skip(start as int)),
            spec_expect(text@.skip(start as int), "]"@) == None::<Seq<char>>,
            ({
                let whole = spec_parse_items(text@.skip(start as int));
                let here = spec_parse_items(text@.skip(cur as int));
                match here {
                    Some((more, rest)) => whole == Some((items.deep_view() + more, rest)),
                    None => whole == None::<(Seq<Seq<char>>, Seq<char>)>,
                }
            }),
        decreases n - cur,
    {
        let ghost items_before = items.deep_view();
        let (content, p1) = match parse_litstr_exec(text, cur) {
            None => {
                return None;
            },
            Some(x) => x,
        };
        proof {
            lemma_parse_litstr_len(text@.skip(cur as int));
        }
        match expect_lit(text, p1, ", ") {
            Some(p2) => {
                items.push(content);
                proof {
                    assert(items.deep_view() =~= items_before.push(content@));
                    assert forall|more: Seq<Seq<char>>|
                        items_before + (seq![content@] + more) =~= items.deep_view() + more by {}
                }
                cur = p2;
            },
            None => {
                match expect_lit(text, p1, "]") {
                    Some(p2) => {
                        let ghost content_v = content@;
                        items.push(content);
                        proof {
                            assert(items.deep_view() =~= items_before.push(content_v));
                            assert(items_before + seq![content_v] =~= items.deep_view());
                            assert(spec_parse_items(text@.skip(cur as int)) == Some(
                                (seq![content_v], text@.skip(p2 as int)),
                            ));
                            assert(spec_parse_items(text@.skip(start as int)) == Some(
                                (items.deep_view(), text@.skip(p2 as int)),
                            ));
                            assert(spec_parse_str_list(text@.skip(pos as int)) == Some(
                                (items.deep_view(), text@.skip(p2 as int)),
                            ));
                        }
                        return Some((items, p2));
                    },
                    None => {
                        return None;
                    },
                }
            },
        }
    }
    proof {
        assert(text@.skip(cur as int) =~= Seq::<char>::empty());
    }
    None
}

/// The persisted record as it is written to disk: the canonical document.
pub fn serialize_data_win(c: &DataWinConfig) -> (r: String)
    ensures
        r@ == spec_config_doc(c@),
{
    let mut out = String::from_str("[data_win]\ngame_root = ");
    append_lit(&mut out, c.game_root.as_str());
    out.append("\nactive_mods = ");
    append_str_list(&mut out, &c.active_mods);
    out.append("\nreplaced_files = ");
    append_str_list(&mut out, &c.replaced_files);
    out.append("\n");
    proof {
        assert(out@ =~= spec_config_doc(c@));
    }
    out
}

/// The record of a fresh configuration.
pub open spec fn spec_default_config() -> DataWinConfigV {
    DataWinConfigV {
        game_root: default_game_root(),
        active_mods: Seq::empty(),
        replaced_files: Seq::empty(),
    }
}

impl AppConfig {
    /// The canonical document under which this configuration is persisted.
    /// The storage path itself is not part of the document.
    pub fn to_toml(&self) -> (r: String)
        ensures
            r@ == spec_config_doc(self@.data_win),
    {
        serialize_data_win(&self.data_win)
    }

    /// Reads a configuration document; the result is not yet tied to a file.
    pub fn from_toml(text: &str) -> (r: Option<AppConfig>)
        ensures
            match spec_parse_config(text@) {
                Some(dw) => r matches Some(c) && c@.data_win == dw && c@.filepath
                    == Seq::<char>::empty(),
                None => r is None,
            },
    {
        let ghost s = text@;
        proof {
            assert(s.skip(0) =~= s);
        }
        let p1 = match expect_lit(text, 0, "[data_win]\ngame_root = ") {
            None => {
                return None;
            },
            Some(p) => p,
        };
        let (game_root, p2) = match parse_litstr_exec(text, p1) {
            None => {
                return None;
            },
            Some(x) => x,
        };
        let p3 = match expect_lit(text, p2, "\nactive_mods = ") {
            None => {
                return None;
            },
            Some(p) => p,
        };
        let (active_mods, p4) = match parse_str_list_exec(text, p3) {
            None => {
                return None;
            },
            Some(x) => x,
        };
        let p5 = match expect_lit(text, p4, "\nreplaced_files = ") {
            None => {
                return None;
            },
            Some(p) => p,
        };
        let (replaced_files, p6) = match parse_str_list_exec(text, p5) {
            None => {
                return None;
            },
            Some(x) => x,
        };
        let p7 = match expect_lit(text, p6, "\n") {
            None => {
                return None;
            },
            Some(p) => p,
        };
        if p7 != text.unicode_len() {
            proof {
                assert(text@.skip(p7 as int).len() > 0);
            }
            return None;
        }
        proof {
            assert(text@.skip(p7 as int).len() == 0);
        }
        Some(
            AppConfig {
                data_win: DataWinConfig { game_root, active_mods, replaced_files },
                filepath: String::new(),
            },
        )
    }

    /// The configuration read from the document `contents` found at
    /// `cfg_path`; a document that does not parse is replaced by the default
    /// configuration. Either way the result is tied to `cfg_path`.
    pub fn load(cfg_path: String, contents: &str) -> (r: Self)
        ensures
            r@.filepath == cfg_path@,
            match spec_parse_config(contents@) {
                Some(dw) => r@.data_win == dw,
                None => r@.data_win == spec_default_config(),
            },
    {
        let mut cfg = match Self::from_toml(contents) {
            Some(c) => c,
            None => {
                let d = AppConfig::default();
                proof {
                    assert(d@.data_win =~= spec_default_config());
                }
                d
            },
        };
        cfg.filepath = cfg_path;
        cfg
    }

    /// The configuration for the file at `cfg_path`: parsed from `contents`
    /// when the file exists, the default otherwise. A caller that passes
    /// `None` should persist the result, so the file exists from then on.
    pub fn new(cfg_path: String, contents: Option<&str>) -> (r: Self)
        ensures
            r@.filepath == cfg_path@,
            match contents {
                Some(text) => match spec_parse_config(text@) {
                    Some(dw) => r@.data_win == dw,
                    None => r@.data_win == spec_default_config(),
                },
                None => r@.data_win == spec_default_config(),
            },
    {
        match contents {
            Some(text) => Self::load(cfg_path, text),
            None => {
                let mut cfg = AppConfig::default();
                proof {
                    assert(cfg@.data_win =~= spec_default_config());
                }
                cfg.filepath = cfg_path;
                cfg
            },
        }
    }
}

/// The serialized form of the data-directory record.
pub open spec fn spec_dirs_doc(appdata: Seq<char>) -> Seq<char> {
    "appdata = "@ + spec_lit(appdata) + "\n"@
}

/// The data-directory path read off a whole directory-configuration document.
pub open spec fn spec_parse_dirs(s: Seq<char>) -> Option<Seq<char>> {
    match spec_expect(s, "appdata = "@) {
        None => None,
        Some(r1) => match spec_parse_litstr(r1) {
            None => None,
            Some((appdata, r2)) => match spec_expect(r2, "\n"@) {
                None => None,
                Some(r3) => if r3.len() == 0 {
                    Some(appdata)
                } else {
                    None
                },
            },
        },
    }
}

/// Where the application's data directory is, when the user overrides it.
#[derive(Clone, Debug)]
pub struct DirsConfig {
    pub appdata: String,
}

impl DirsConfig {
    /// A copy of this record with the same value of `appdata`.
    pub fn dup(&self) -> (r: Self)
        ensures
            r.appdata@ == self.appdata@,
    {
        DirsConfig { appdata: self.appdata.clone() }
    }

    /// The canonical document under which this record is persisted.
    pub fn to_toml(&self) -> (r: String)
        ensures
            r@ == spec_dirs_doc(self.appdata@),
    {
        let mut out = String::from_str("appdata = ");
        append_lit(&mut out, self.appdata.as_str());
        out.append("\n");
        proof {
            assert(out@ =~= spec_dirs_doc(self.appdata@));
        }
        out
    }

    /// Reads a directory-configuration document.
    pub fn from_toml(text: &str) -> (r: Option<DirsConfig>)
        ensures
            match spec_parse_dirs(text@) {
                Some(a) => r matches Some(d) && d.appdata@ == a,
                None => r is None,
            },
    {
        proof {
            assert(text@.skip(0) =~= text@);
        }
        let p1 = match expect_lit(text, 0, "appdata = ") {
            None => {
                return None;
            },
            Some(p) => p,
        };
        let (appdata, p2) = match parse_litstr_exec(text, p1) {
            None => {
                return None;
            },
            Some(x) => x,
        };
        let p3 = match expect_lit(text, p2, "\n") {
            None => {
                return None;
            },
            Some(p) => p,
        };
        if p3 != text.unicode_len() {
            proof {
                assert(text@.skip(p3 as int).len() > 0);
            }
            return None;
        }
        proof {
            assert(text@.skip(p3 as int).len() == 0);
        }
        Some(DirsConfig { appdata })
    }
}

} // verus!
