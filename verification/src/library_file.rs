//! The file that keeps the library of original pitches.

use vstd::prelude::*;
use vstd::string::*;

use crate::digits::{push_hex_low, read_numeral};
use crate::json::{
    count_value, field, list_value, parse_json, print_json, table_value, text_value, Json,
};
use crate::library::{by_place, sort_lib, views, Entry, LibEntry};
use crate::offsets::REC;

verus! {

/// One row of the file. What is missing, or of the wrong kind, is `None`.
#[derive(Clone, Debug, Default)]
pub struct Row {
    pub name: Option<String>,
    pub slot: Option<u64>,
    pub dir: Option<u64>,
    pub base: Option<u64>,
    pub kind: Option<String>,
    pub holder: Option<String>,
    pub hex: Option<String>,
}

/// What a row of the file says.
#[verifier::ext_equal]
pub ghost struct RowView {
    pub name: Option<Seq<char>>,
    pub slot: Option<u64>,
    pub dir: Option<u64>,
    pub base: Option<u64>,
    pub kind: Option<Seq<char>>,
    pub holder: Option<Seq<char>>,
    pub hex: Option<Seq<char>>,
}

/// The characters of a text that may be missing.
pub open spec fn maybe(s: Option<String>) -> Option<Seq<char>> {
    match s {
        Some(t) => Some(t@),
        None => None,
    }
}

impl View for Row {
    type V = RowView;

    open spec fn view(&self) -> RowView {
        RowView {
            name: maybe(self.name),
            slot: self.slot,
            dir: self.dir,
            base: self.base,
            kind: maybe(self.kind),
            holder: maybe(self.holder),
            hex: maybe(self.hex),
        }
    }
}

/// Two hexadecimal digits for each byte.
pub open spec fn hex_of(raw: Seq<u8>) -> Seq<char>
    decreases raw.len(),
{
    if raw.len() == 0 {
        seq![]
    } else {
        hex_of(raw.drop_last()) + crate::digits::hex_low(raw.last() as nat, 2)
    }
}

/// The byte that two bytes of text stand for, if they are digits.
pub open spec fn pair_value(a: u8, b: u8) -> Option<u8> {
    if a < 0x80 && b < 0x80 {
        match crate::digits::numeral(seq![a as char, b as char], 16, 255) {
            Some(v) => Some(v as u8),
            None => None,
        }
    } else {
        None
    }
}

/// The bytes that the first `k` pairs of a text stand for. Pairs that are no
/// digits are passed over.
pub open spec fn unhex(t: Seq<u8>, k: int) -> Seq<u8>
    decreases k,
{
    if k <= 0 {
        seq![]
    } else {
        let rest = unhex(t, k - 1);
        match pair_value(t[2 * k - 2], t[2 * k - 1]) {
            Some(v) => rest.push(v),
            None => rest,
        }
    }
}

/// The bytes that a text stands for.
pub open spec fn raw_of(hex: Seq<char>) -> Seq<u8> {
    let t = vstd::utf8::encode_utf8(hex);
    unhex(t, t.len() as int / 2)
}

/// Cutting a text into pairs of bytes cuts through none of its characters.
pub open spec fn cuts_well(hex: Seq<char>) -> bool {
    let t = vstd::utf8::encode_utf8(hex);
    forall|i: int|
        0 <= i <= t.len() as int / 2 ==> #[trigger] vstd::utf8::is_char_boundary(t, 2 * i)
}

/// The text, empty where it is missing.
pub open spec fn or_empty(s: Option<Seq<char>>) -> Seq<char> {
    match s {
        Some(t) => t,
        None => seq![],
    }
}

/// The count, 0 where it is missing.
pub open spec fn or_zero(n: Option<u64>) -> u64 {
    match n {
        Some(v) => v,
        None => 0,
    }
}

/// The entry that a row makes.
pub open spec fn entry_in(r: RowView) -> Entry {
    Entry {
        name: or_empty(r.name),
        slot: or_zero(r.slot),
        dir: or_zero(r.dir),
        base: (or_zero(r.base) % 256) as u8,
        kind: or_empty(r.kind),
        holder: or_empty(r.holder),
        raw: raw_of(or_empty(r.hex)),
    }
}

/// The entries that the first `k` rows make. Rows without a whole record are
/// passed over.
pub open spec fn entries_in(rows: Seq<RowView>, k: int) -> Seq<Entry>
    decreases k,
{
    if k <= 0 {
        seq![]
    } else {
        let rest = entries_in(rows, k - 1);
        let e = entry_in(rows[k - 1]);
        if e.raw.len() == REC {
            rest.push(e)
        } else {
            rest
        }
    }
}

/// Every row can be cut into pairs.
pub open spec fn rows_cut_well(rows: Seq<RowView>) -> bool {
    forall|i: int| 0 <= i < rows.len() ==> cuts_well(or_empty((#[trigger] rows[i]).hex))
}

/// The library that rows make.
pub open spec fn lib_in(rows: Seq<RowView>) -> Seq<Entry> {
    by_place(entries_in(rows, rows.len() as int))
}

/// The text of a value, if it is one.
pub open spec fn text_in(j: Json) -> Option<Seq<char>> {
    match j {
        Json::Text(s) => Some(s),
        _ => None,
    }
}

/// The count of a value, if it is one.
pub open spec fn count_in(j: Json) -> Option<u64> {
    match j {
        Json::Count(n) => Some(n),
        _ => None,
    }
}

/// The row that a value stands for.
pub open spec fn row_in(j: Json) -> RowView {
    RowView {
        name: text_in(crate::json::entry(j, "name"@)),
        slot: count_in(crate::json::entry(j, "slot"@)),
        dir: count_in(crate::json::entry(j, "dir"@)),
        base: count_in(crate::json::entry(j, "base"@)),
        kind: text_in(crate::json::entry(j, "kind"@)),
        holder: text_in(crate::json::entry(j, "holder"@)),
        hex: text_in(crate::json::entry(j, "hex"@)),
    }
}

/// The rows that a value stands for. There are none in anything but a list.
pub open spec fn rows_in(j: Json) -> Seq<RowView> {
    match j {
        Json::List(l) => Seq::new(l.len(), |i: int| row_in(l[i])),
        _ => seq![],
    }
}

/// The rows of a file. There are none in a file that is no JSON.
pub open spec fn rows_of_file(t: Seq<char>) -> Seq<RowView> {
    match crate::json::parsed(t) {
        Some(j) => rows_in(j),
        None => seq![],
    }
}

/// The table that stands for an entry.
pub open spec fn entry_table(e: Entry) -> Map<Seq<char>, Json> {
    Map::<Seq<char>, Json>::empty().insert("name"@, Json::Text(e.name)).insert(
        "slot"@,
        Json::Count(e.slot),
    ).insert("dir"@, Json::Count(e.dir)).insert("base"@, Json::Count(e.base as u64)).insert(
        "kind"@,
        Json::Text(e.kind),
    ).insert("holder"@, Json::Text(e.holder)).insert("hex"@, Json::Text(hex_of(e.raw)))
}

/// The value that stands for a library.
pub open spec fn lib_json(s: Seq<Entry>) -> Json {
    Json::List(Seq::new(s.len(), |i: int| Json::Table(entry_table(s[i]))))
}

fn to_hex(raw: &Vec<u8>) -> (res: String)
    ensures
        res@ == hex_of(raw@),
{
    let mut s = String::new();
    let mut i: usize = 0;
    while i < raw.len()
        invariant
            i <= raw@.len(),
            s@ == hex_of(raw@.take(i as int)),
        decreases raw@.len() - i,
    {
        assert(raw@.take(i + 1).drop_last() =~= raw@.take(i as int));
        push_hex_low(&mut s, raw[i] as u64, 2);
        i += 1;
    }
    assert(raw@.take(i as int) =~= raw@);
    s
}

/// The bytes that a text stands for, `None` where cutting it into pairs would
/// cut through a character.
pub fn from_hex(hex: &str) -> (res: Option<Vec<u8>>)
    ensures
        match res {
            Some(b) => cuts_well(hex@) && b@ == raw_of(hex@),
            None => !cuts_well(hex@),
        },
{
    let t = hex.as_bytes();
    let len: usize = t.len();
    let n: usize = len / 2;
    let ghost tv = vstd::utf8::encode_utf8(hex@);
    let mut i: usize = 0;
    loop
        invariant_except_break
            i <= n,
            forall|j: int| 0 <= j < i ==> #[trigger] vstd::utf8::is_char_boundary(tv, 2 * j),
        invariant
            len == tv.len(),
            n == len / 2,
            t@ == tv,
            tv == vstd::utf8::encode_utf8(hex@),
        ensures
            cuts_well(hex@),
        decreases n - i,
    {
        let at: usize = 2 * i;
        if !hex.is_char_boundary(at) {
            assert(!vstd::utf8::is_char_boundary(tv, 2 * i as int));
            return None;
        }
        if i == n {
            break;
        }
        i += 1;
    }
    let mut out: Vec<u8> = Vec::new();
    let mut k: usize = 0;
    while k < n
        invariant
            k <= n,
            len == tv.len(),
            n == len / 2,
            t@ == tv,
            out@ == unhex(tv, k as int),
        decreases n - k,
    {
        let (a, b) = (t[2 * k], t[2 * k + 1]);
        if a < 0x80 && b < 0x80 {
            let c: Vec<char> = vec![a as char, b as char];
            assert(c@ =~= seq![a as char, b as char]);
            if let Some(v) = read_numeral(&c, 16, 255) {
                out.push(v as u8);
            }
        }
        k += 1;
    }
    Some(out)
}

fn text_or_empty(s: &Option<String>) -> (res: String)
    ensures
        res@ == or_empty(maybe(*s)),
{
    match s {
        Some(t) => t.clone(),
        None => String::new(),
    }
}

fn count_or_zero(n: Option<u64>) -> (res: u64)
    ensures
        res == or_zero(n),
{
    match n {
        Some(v) => v,
        None => 0,
    }
}

/// What rows say.
pub open spec fn row_views(rows: Seq<Row>) -> Seq<RowView> {
    rows.map_values(|r: Row| r@)
}

/// The library that the rows of a file make, `None` where the record of a row
/// cannot be cut into pairs.
pub fn lib_from_rows(rows: &Vec<Row>) -> (res: Option<Vec<LibEntry>>)
    ensures
        match res {
            Some(lib) => rows_cut_well(row_views(rows@)) && views(lib@) == lib_in(row_views(rows@)),
            None => !rows_cut_well(row_views(rows@)),
        },
{
    let ghost rv = row_views(rows@);
    let mut out: Vec<LibEntry> = Vec::new();
    let mut i: usize = 0;
    assert(views(out@) =~= Seq::empty());
    while i < rows.len()
        invariant
            i <= rows@.len(),
            rv == row_views(rows@),
            forall|j: int| 0 <= j < i ==> cuts_well(or_empty((#[trigger] rv[j]).hex)),
            views(out@) == entries_in(rv, i as int),
        decreases rows@.len() - i,
    {
        let r = &rows[i];
        assert(rv[i as int] == r@);
        let hex = text_or_empty(&r.hex);
        let raw = match from_hex(hex.as_str()) {
            Some(b) => b,
            None => {
                assert(!cuts_well(or_empty(rv[i as int].hex)));
                return None;
            },
        };
        if raw.len() == REC {
            let ghost before = out@;
            let e = LibEntry {
                name: text_or_empty(&r.name),
                slot: count_or_zero(r.slot),
                dir: count_or_zero(r.dir),
                base: (count_or_zero(r.base) % 256) as u8,
                kind: text_or_empty(&r.kind),
                holder: text_or_empty(&r.holder),
                raw,
            };
            assert(e@ =~= entry_in(r@));
            out.push(e);
            assert(views(out@) =~= views(before).push(entry_in(r@)));
        }
        i += 1;
    }
    sort_lib(&mut out);
    Some(out)
}

fn text_of(v: &serde_json::Value, k: &str) -> (res: Option<String>)
    ensures
        maybe(res) == text_in(crate::json::entry(crate::json::json(*v), k@)),
{
    match field(v, k).as_str() {
        Some(s) => Some(s.to_owned()),
        None => None,
    }
}

fn count_of(v: &serde_json::Value, k: &str) -> (res: Option<u64>)
    ensures
        res == count_in(crate::json::entry(crate::json::json(*v), k@)),
{
    field(v, k).as_u64()
}

/// The rows of the file with the text `t`.
pub fn lib_rows(t: &str) -> (res: Vec<Row>)
    ensures
        row_views(res@) == rows_of_file(t@),
{
    let mut out: Vec<Row> = Vec::new();
    assert(row_views(out@) =~= Seq::empty());
    let v = match parse_json(t) {
        Ok(v) => v,
        Err(_) => {
            return out;
        },
    };
    let l = match v.as_array() {
        Some(l) => l,
        None => {
            return out;
        },
    };
    let ghost all = rows_in(crate::json::json(v));
    let mut i: usize = 0;
    while i < l.len()
        invariant
            i <= l@.len(),
            all.len() == l@.len(),
            forall|j: int| 0 <= j < l@.len() ==> all[j] == row_in(#[trigger] crate::json::json(l@[j])),
            row_views(out@) == all.take(i as int),
        decreases l@.len() - i,
    {
        let e = &l[i];
        let r = Row {
            name: text_of(e, "name"),
            slot: count_of(e, "slot"),
            dir: count_of(e, "dir"),
            base: count_of(e, "base"),
            kind: text_of(e, "kind"),
            holder: text_of(e, "holder"),
            hex: text_of(e, "hex"),
        };
        assert(r@ =~= row_in(crate::json::json(l@[i as int])));
        let ghost before = out@;
        out.push(r);
        assert(row_views(out@) =~= row_views(before).push(r@));
        i += 1;
        assert(row_views(out@) =~= all.take(i as int));
    }
    assert(row_views(out@) =~= all);
    out
}

/// The library that a file keeps, given its text if it could be read. A file
/// that is missing or is no list keeps nothing. `None` where the record of a
/// row cannot be cut into pairs.
pub fn load_lib(txt: Option<&str>) -> (res: Option<Vec<LibEntry>>)
    ensures
        ({
            let rows = match txt {
                Some(t) => rows_of_file(t@),
                None => seq![],
            };
            match res {
                Some(lib) => rows_cut_well(rows) && views(lib@) == lib_in(rows),
                None => !rows_cut_well(rows),
            }
        }),
{
    match txt {
        Some(t) => lib_from_rows(&lib_rows(t)),
        None => {
            let out: Vec<LibEntry> = Vec::new();
            assert(views(out@) =~= Seq::empty());
            Some(out)
        },
    }
}

fn entry_value(e: &LibEntry) -> (res: serde_json::Value)
    ensures
        crate::json::json(res) == Json::Table(entry_table(e@)),
{
    let pairs: Vec<(String, serde_json::Value)> = vec![
        ("name".to_owned(), text_value(e.name.clone())),
        ("slot".to_owned(), count_value(e.slot)),
        ("dir".to_owned(), count_value(e.dir)),
        ("base".to_owned(), count_value(e.base as u64)),
        ("kind".to_owned(), text_value(e.kind.clone())),
        ("holder".to_owned(), text_value(e.holder.clone())),
        ("hex".to_owned(), text_value(to_hex(&e.raw))),
    ];
    proof {
        let p = pairs@;
        assert(p.take(7) =~= p);
        assert(p.take(7).drop_last() =~= p.take(6));
        assert(p.take(6).drop_last() =~= p.take(5));
        assert(p.take(5).drop_last() =~= p.take(4));
        assert(p.take(4).drop_last() =~= p.take(3));
        assert(p.take(3).drop_last() =~= p.take(2));
        assert(p.take(2).drop_last() =~= p.take(1));
        assert(p.take(1).drop_last() =~= p.take(0));
        reveal_with_fuel(crate::json::table_of, 8);
        assert(crate::json::table_of(p) == entry_table(e@));
    }
    table_value(pairs)
}

/// The text of the file that keeps a library.
pub fn save_lib(lib: &[LibEntry]) -> (res: String)
    ensures
        res@ == crate::json::pretty_text(lib_json(views(lib@))),
        crate::json::parsed(res@) == Some(lib_json(views(lib@))),
{
    let mut l: Vec<serde_json::Value> = Vec::new();
    let mut i: usize = 0;
    while i < lib.len()
        invariant
            i <= lib@.len(),
            l@.len() == i,
            forall|j: int|
                0 <= j < i ==> crate::json::json(#[trigger] l@[j]) == Json::Table(
                    entry_table(lib@[j]@),
                ),
        decreases lib@.len() - i,
    {
        l.push(entry_value(&lib[i]));
        i += 1;
    }
    let v = list_value(l);
    proof {
        let s = views(lib@);
        let rows = Seq::new(s.len(), |i: int| Json::Table(entry_table(s[i])));
        assert(Seq::new(l@.len(), |i: int| crate::json::json(l@[i])) =~= rows);
        assert forall|i: int| 0 <= i < rows.len() implies crate::json::is_flat(#[trigger] rows[i]) by {
            let t = entry_table(s[i]);
            assert forall|k: Seq<char>| #[trigger] t.dom().contains(k) implies crate::json::is_plain(
                t[k],
            ) by {}
        }
        assert(crate::json::is_rows(lib_json(s)));
    }
    match print_json(&v) {
        Ok(t) => t,
        Err(_) => String::new(),
    }
}

/// Where the file of the library may be, seen from the program: beside it, at
/// the root of the tree it was built in, and where that tree used to keep it.
/// The last place is the working directory.
pub const ORIGLIB_PLACES: [&'static str; 4] = [
    "origlib.json",
    "../../origlib.json",
    "../../../memtool/origlib.json",
    "origlib.json",
];

/// Which place to take, given where there is a file: the first one, and where
/// there is none, the first place of all.
pub fn origlib_path(there: &[bool; 4]) -> (res: usize)
    ensures
        res < 4,
        if exists|i: int| 0 <= i < 4 && #[trigger] there@[i] {
            there@[res as int] && forall|j: int| 0 <= j < res ==> !#[trigger] there@[j]
        } else {
            res == 0
        },
{
    let mut i: usize = 0;
    while i < 4
        invariant
            i <= 4,
            forall|j: int| 0 <= j < i ==> !#[trigger] there@[j],
        decreases 4 - i,
    {
        if there[i] {
            assert(there@[i as int]);
            return i;
        }
        i += 1;
    }
    0
}

} // verus!
