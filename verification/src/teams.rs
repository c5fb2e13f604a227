//! Team names, and the file in which changed ones are kept.

use std::collections::HashMap;

use vstd::prelude::*;
use vstd::string::*;

use crate::digits::{push_decimal, read_numeral};
use crate::json::{entries, parse_json, print_json, table_value, text_value, Json};
use crate::text::{chars_of, trim};

verus! {

broadcast use vstd::std_specs::hash::group_hash_axioms;

/// The teams whose numbers are known.
pub const DEFAULT_TEAMS: [(u8, &'static str); 38] = [
    (0, "巨人"),
    (1, "中日"),
    (2, "廣島"),
    (3, "養樂多"),
    (4, "DeNA"),
    (5, "阪神"),
    (6, "樂天"),
    (7, "日本火腿"),
    (8, "西武"),
    (9, "歐力士"),
    (10, "羅德"),
    (11, "軟銀"),
    (31, "日本代表"),
    (32, "韓國"),
    (35, "古巴"),
    (36, "墨西哥"),
    (37, "澳洲"),
    (38, "尼加拉瓜"),
    (39, "美國"),
    (40, "加拿大"),
    (41, "委內瑞拉"),
    (42, "義大利"),
    (43, "多明尼加"),
    (44, "波多黎各"),
    (45, "巴拿馬"),
    (46, "荷蘭"),
    (47, "哥倫比亞"),
    (48, "以色列"),
    (49, "捷克"),
    (50, "英國"),
    (51, "巴西"),
    (52, "台灣"),
    (53, "日本代表 2006"),
    (54, "日本代表 2009"),
    (55, "日本代表 2023"),
    (56, "日本代表 2026"),
    (65, "栄冠（自校）"),
    (66, "選手池（非球隊）"),
];

/// The names in a map of teams.
pub open spec fn names(m: Map<u8, String>) -> Map<u8, Seq<char>> {
    m.map_values(|s: String| s@)
}

/// The first `k` teams of a table.
pub open spec fn from_table(t: Seq<(u8, &'static str)>, k: int) -> Map<u8, Seq<char>>
    decreases k,
{
    if k <= 0 {
        Map::empty()
    } else {
        from_table(t, k - 1).insert(t[k - 1].0, t[k - 1].1@)
    }
}

/// The teams whose names are known.
pub open spec fn known_teams() -> Map<u8, Seq<char>> {
    from_table(DEFAULT_TEAMS@, DEFAULT_TEAMS@.len() as int)
}

/// The team number that a key stands for.
pub open spec fn team_id(key: Seq<char>) -> Option<u8> {
    match crate::digits::numeral(key, 10, 255) {
        Some(v) => Some(v as u8),
        None => None,
    }
}

/// Teams with one entry of a file: a number and a text that is not empty.
pub open spec fn with_entry(
    m: Map<u8, Seq<char>>,
    key: Seq<char>,
    val: Option<Seq<char>>,
) -> Map<u8, Seq<char>> {
    match (team_id(key), val) {
        (Some(id), Some(s)) => if s.len() > 0 {
            m.insert(id, s)
        } else {
            m
        },
        _ => m,
    }
}

/// Teams with the first `k` entries of a file.
pub open spec fn with_entries(
    m: Map<u8, Seq<char>>,
    pairs: Seq<(Seq<char>, Option<Seq<char>>)>,
    k: int,
) -> Map<u8, Seq<char>>
    decreases k,
{
    if k <= 0 {
        m
    } else {
        with_entry(with_entries(m, pairs, k - 1), pairs[k - 1].0, pairs[k - 1].1)
    }
}

/// What the entries of a file say.
pub open spec fn pair_views(l: Seq<(String, Option<String>)>) -> Seq<
    (Seq<char>, Option<Seq<char>>),
> {
    l.map_values(
        |p: (String, Option<String>)|
            (
                p.0@,
                match p.1 {
                    Some(s) => Some(s@),
                    None => None,
                },
            ),
    )
}

/// `pairs` are the entries of a table in the order of their keys, with their
/// texts where they are texts.
pub open spec fn are_entries(
    t: Map<Seq<char>, Json>,
    pairs: Seq<(Seq<char>, Option<Seq<char>>)>,
) -> bool {
    &&& forall|i: int, j: int|
        0 <= i < j < pairs.len() ==> crate::order::text_lt(
            (#[trigger] pairs[i]).0,
            (#[trigger] pairs[j]).0,
        )
    &&& forall|i: int|
        0 <= i < pairs.len() ==> t.dom().contains((#[trigger] pairs[i]).0) && pairs[i].1
            == crate::library_file::text_in(t[pairs[i].0])
    &&& forall|k: Seq<char>| #[trigger]
        t.dom().contains(k) ==> exists|i: int| 0 <= i < pairs.len() && (#[trigger] pairs[i]).0 == k
}

/// The teams that a file makes of the known ones.
pub open spec fn loaded(j: Option<Json>, res: Map<u8, Seq<char>>) -> bool {
    if j is Some && j->0 is Table {
        exists|pairs: Seq<(Seq<char>, Option<Seq<char>>)>| #[trigger]
            are_entries(j->0->Table_0, pairs) && res == with_entries(
                known_teams(),
                pairs,
                pairs.len() as int,
            )
    } else {
        res == known_teams()
    }
}

/// The table that stands for the teams below `n`.
pub open spec fn team_table(m: Map<u8, Seq<char>>, n: int) -> Map<Seq<char>, Json>
    decreases n,
{
    if n <= 0 {
        Map::empty()
    } else if m.dom().contains((n - 1) as u8) {
        team_table(m, n - 1).insert(
            crate::digits::decimal((n - 1) as nat),
            Json::Text(m[(n - 1) as u8]),
        )
    } else {
        team_table(m, n - 1)
    }
}

fn default_teams() -> (res: HashMap<u8, String>)
    ensures
        names(res@) == known_teams(),
{
    let ghost t = DEFAULT_TEAMS@;
    let mut out: HashMap<u8, String> = HashMap::new();
    let mut i: usize = 0;
    assert(names(out@) =~= Map::empty());
    while i < DEFAULT_TEAMS.len()
        invariant
            t == DEFAULT_TEAMS@,
            i <= t.len(),
            names(out@) == from_table(t, i as int),
        decreases t.len() - i,
    {
        let e = DEFAULT_TEAMS[i];
        let ghost before = out@;
        out.insert(e.0, e.1.to_owned());
        assert(names(out@) =~= names(before).insert(e.0, e.1@));
        i += 1;
    }
    out
}

/// The teams that the entries of a file make of the known ones. A later entry
/// for the same team counts.
pub fn teams_from_entries(l: &Vec<(String, Option<String>)>) -> (res: HashMap<u8, String>)
    ensures
        names(res@) == with_entries(known_teams(), pair_views(l@), l@.len() as int),
{
    let ghost pairs = pair_views(l@);
    let mut out = default_teams();
    let mut i: usize = 0;
    while i < l.len()
        invariant
            i <= l@.len(),
            pairs == pair_views(l@),
            names(out@) == with_entries(known_teams(), pairs, i as int),
        decreases l@.len() - i,
    {
        let key = chars_of(l[i].0.as_str());
        if let Some(id) = read_numeral(&key, 10, 255) {
            if let Some(s) = &l[i].1 {
                if !s.as_str().is_empty() {
                    let ghost before = out@;
                    out.insert(id as u8, s.clone());
                    assert(names(out@) =~= names(before).insert(id as u8, s@));
                }
            }
        }
        i += 1;
    }
    out
}

fn text_entries(l: &Vec<(String, serde_json::Value)>) -> (res: Vec<(String, Option<String>)>)
    ensures
        res@.len() == l@.len(),
        forall|i: int|
            0 <= i < l@.len() ==> (#[trigger] pair_views(res@)[i]) == (
                l@[i].0@,
                crate::library_file::text_in(crate::json::json(l@[i].1)),
            ),
{
    let mut out: Vec<(String, Option<String>)> = Vec::new();
    let mut i: usize = 0;
    while i < l.len()
        invariant
            i <= l@.len(),
            out@.len() == i,
            forall|j: int|
                0 <= j < i ==> (#[trigger] pair_views(out@)[j]) == (
                    l@[j].0@,
                    crate::library_file::text_in(crate::json::json(l@[j].1)),
                ),
        decreases l@.len() - i,
    {
        let s: Option<String> = match l[i].1.as_str() {
            Some(t) => Some(t.to_owned()),
            None => None,
        };
        let ghost before = out@;
        out.push((l[i].0.clone(), s));
        assert forall|j: int| 0 <= j < i + 1 implies (#[trigger] pair_views(out@)[j]) == (
            l@[j].0@,
            crate::library_file::text_in(crate::json::json(l@[j].1)),
        ) by {
            if j < i {
                assert(pair_views(out@)[j] == pair_views(before)[j]);
            }
        }
        i += 1;
    }
    out
}

proof fn table_has_its_pairs(l: Seq<(String, serde_json::Value)>)
    requires
        forall|i: int, j: int|
            0 <= i < j < l.len() ==> crate::order::text_lt(
                (#[trigger] l[i]).0@,
                (#[trigger] l[j]).0@,
            ),
    ensures
        forall|i: int|
            0 <= i < l.len() ==> crate::json::table_of(l).dom().contains((#[trigger] l[i]).0@)
                && crate::json::table_of(l)[l[i].0@] == crate::json::json(l[i].1),
        forall|k: Seq<char>| #[trigger]
            crate::json::table_of(l).dom().contains(k) ==> exists|i: int|
                0 <= i < l.len() && (#[trigger] l[i]).0@ == k,
    decreases l.len(),
{
    if l.len() > 0 {
        let d = l.drop_last();
        let n = l.len() - 1;
        assert forall|i: int, j: int| 0 <= i < j < d.len() implies crate::order::text_lt(
            (#[trigger] d[i]).0@,
            (#[trigger] d[j]).0@,
        ) by {
            assert(crate::order::text_lt(l[i].0@, l[j].0@));
        }
        table_has_its_pairs(d);
        let t = crate::json::table_of(l);
        assert forall|i: int| 0 <= i < l.len() implies t.dom().contains((#[trigger] l[i]).0@)
            && t[l[i].0@] == crate::json::json(l[i].1) by {
            if i < n {
                assert(d[i] == l[i]);
                assert(crate::order::text_lt(l[i].0@, l[n].0@));
                crate::order::text_order(l[i].0@, l[n].0@, l[n].0@);
            }
        }
        assert forall|k: Seq<char>| #[trigger] t.dom().contains(k) implies exists|i: int|
            0 <= i < l.len() && (#[trigger] l[i]).0@ == k by {
            if k == l[n].0@ {
            } else {
                assert(crate::json::table_of(d).dom().contains(k));
                let i = choose|i: int| 0 <= i < d.len() && (#[trigger] d[i]).0@ == k;
                assert(l[i].0@ == k);
            }
        }
    }
}

/// The teams, given the text of the file if it could be read. A file that is
/// missing or is no table changes nothing.
pub fn load_teams(txt: Option<&str>) -> (res: HashMap<u8, String>)
    ensures
        loaded(
            match txt {
                Some(t) => crate::json::parsed(t@),
                None => None,
            },
            names(res@),
        ),
{
    let t = match txt {
        Some(t) => t,
        None => {
            return default_teams();
        },
    };
    let v = match parse_json(t) {
        Ok(v) => v,
        Err(_) => {
            return default_teams();
        },
    };
    match entries(&v) {
        Some(l) => {
            let pairs = text_entries(&l);
            proof {
                let pv = pair_views(pairs@);
                let tab = crate::json::table_of(l@);
                table_has_its_pairs(l@);
                assert forall|i: int, j: int| 0 <= i < j < pv.len() implies crate::order::text_lt(
                    (#[trigger] pv[i]).0,
                    (#[trigger] pv[j]).0,
                ) by {
                    assert(crate::order::text_lt(l@[i].0@, l@[j].0@));
                }
                assert forall|i: int| 0 <= i < pv.len() implies tab.dom().contains(
                    (#[trigger] pv[i]).0,
                ) && pv[i].1 == crate::library_file::text_in(tab[pv[i].0]) by {
                    assert(tab.dom().contains(l@[i].0@));
                }
                assert forall|k: Seq<char>| #[trigger] tab.dom().contains(k) implies exists|i: int|
                    0 <= i < pv.len() && (#[trigger] pv[i]).0 == k by {
                    let i = choose|i: int| 0 <= i < l@.len() && (#[trigger] l@[i]).0@ == k;
                    assert(pv[i].0 == k);
                }
                assert(are_entries(tab, pv));
            }
            let res = teams_from_entries(&pairs);
            proof {
                let pv = pair_views(pairs@);
                let tab = crate::json::table_of(l@);
                assert(are_entries(tab, pv) && names(res@) == with_entries(
                    known_teams(),
                    pv,
                    pv.len() as int,
                ));
                let j = crate::json::parsed(t@);
                assert(j->0->Table_0 == tab);
                assert(are_entries(j->0->Table_0, pv));
                assert(loaded(j, names(res@)));
            }
            res
        },
        None => default_teams(),
    }
}

/// The text of the file that keeps the teams.
pub fn save_teams(m: &HashMap<u8, String>) -> (res: String)
    ensures
        res@ == crate::json::pretty_text(Json::Table(team_table(names(m@), 256))),
        crate::json::parsed(res@) == Some(Json::Table(team_table(names(m@), 256))),
{
    let mut pairs: Vec<(String, serde_json::Value)> = Vec::new();
    let mut n: u64 = 0;
    while n < 256
        invariant
            n <= 256,
            crate::json::table_of(pairs@) == team_table(names(m@), n as int),
            forall|k: Seq<char>| #[trigger]
                team_table(names(m@), n as int).dom().contains(k) ==> crate::json::is_plain(
                    team_table(names(m@), n as int)[k],
                ),
        decreases 256 - n,
    {
        let id: u8 = n as u8;
        if let Some(s) = m.get(&id) {
            let mut key = String::new();
            push_decimal(&mut key, n);
            assert(key@ =~= crate::digits::decimal(n as nat));
            let v = text_value(s.clone());
            let ghost before = pairs@;
            pairs.push((key, v));
            assert(pairs@.drop_last() =~= before);
        }
        n += 1;
    }
    let v = table_value(pairs);
    match print_json(&v) {
        Ok(t) => t,
        Err(_) => String::new(),
    }
}

proof fn decimals_are_read(n: nat)
    ensures
        ({
            let t = crate::digits::decimal(n);
            &&& t.len() > 0
            &&& t[0] != '+'
            &&& crate::digits::all_digits(t, 10)
            &&& crate::digits::value_of(t, 10) == n
        }),
    decreases n,
{
    let t = crate::digits::decimal(n);
    let d = crate::digits::digit((n % 10) as int);
    assert(crate::digits::digit_value(d) == Some((n % 10) as int));
    if n < 10 {
        assert(t =~= seq![d]);
        assert(t.drop_last() =~= Seq::<char>::empty());
        assert(crate::digits::value_of(t.drop_last(), 10) == 0);
    } else {
        let r = crate::digits::decimal(n / 10);
        decimals_are_read(n / 10);
        assert(t.drop_last() =~= r);
        assert(t[0] == r[0]);
        assert forall|i: int| 0 <= i < t.len() implies (#[trigger] crate::digits::digit_value(
            t[i],
        )) is Some && crate::digits::digit_value(t[i])->0 < 10 by {
            if i < r.len() {
                assert(t[i] == r[i]);
            }
        }
    }
}

/// The number of a team, written down, is read as that team.
proof fn ids_are_read(id: u8)
    ensures
        team_id(crate::digits::decimal(id as nat)) == Some(id),
{
    decimals_are_read(id as nat);
}

proof fn table_rows(m: Map<u8, Seq<char>>, n: int)
    requires
        0 <= n <= 256,
    ensures
        forall|k: Seq<char>| #[trigger]
            team_table(m, n).dom().contains(k) ==> exists|id: u8|
                id < n && m.dom().contains(id) && k == #[trigger] crate::digits::decimal(id as nat),
        forall|id: u8|
            id < n && m.dom().contains(id) ==> {
                let k = #[trigger] crate::digits::decimal(id as nat);
                team_table(m, n).dom().contains(k) && team_table(m, n)[k] == Json::Text(m[id])
            },
    decreases n,
{
    if n > 0 {
        let last = (n - 1) as u8;
        let a = team_table(m, n - 1);
        let b = team_table(m, n);
        table_rows(m, n - 1);
        assert forall|k: Seq<char>| #[trigger] b.dom().contains(k) implies exists|id: u8|
            id < n && m.dom().contains(id) && k == #[trigger] crate::digits::decimal(id as nat) by {
            if a.dom().contains(k) {
                let id = choose|id: u8|
                    id < n - 1 && m.dom().contains(id) && k == #[trigger] crate::digits::decimal(
                        id as nat,
                    );
                assert(id < n && k == crate::digits::decimal(id as nat));
            } else {
                assert(k == crate::digits::decimal(last as nat));
            }
        }
        assert forall|id: u8| id < n && m.dom().contains(id) implies {
            let k = #[trigger] crate::digits::decimal(id as nat);
            b.dom().contains(k) && b[k] == Json::Text(m[id])
        } by {
            ids_are_read(id);
            ids_are_read(last);
            if id < n - 1 {
                assert(a.dom().contains(crate::digits::decimal(id as nat)));
            }
        }
    }
}

/// The entry stands for one of the teams.
spec fn is_saved(m: Map<u8, Seq<char>>, p: (Seq<char>, Option<Seq<char>>)) -> bool {
    exists|x: u8|
        m.dom().contains(x) && p.0 == #[trigger] crate::digits::decimal(x as nat) && p.1 == Some(
            m[x],
        )
}

proof fn entries_set_names(
    d: Map<u8, Seq<char>>,
    m: Map<u8, Seq<char>>,
    pairs: Seq<(Seq<char>, Option<Seq<char>>)>,
    k: int,
    id: u8,
)
    requires
        0 <= k <= pairs.len(),
        forall|i: int| 0 <= i < pairs.len() ==> is_saved(m, #[trigger] pairs[i]),
    ensures
        ({
            let r = with_entries(d, pairs, k);
            let hit = exists|i: int|
                0 <= i < k && (#[trigger] pairs[i]).0 == crate::digits::decimal(id as nat);
            if hit && m[id].len() > 0 {
                r.dom().contains(id) && r[id] == m[id]
            } else {
                r.dom().contains(id) == d.dom().contains(id) && (d.dom().contains(id) ==> r[id]
                    == d[id])
            }
        }),
    decreases k,
{
    if k > 0 {
        entries_set_names(d, m, pairs, k - 1, id);
        let p = pairs[k - 1];
        assert(is_saved(m, p));
        let x = choose|x: u8|
            m.dom().contains(x) && p.0 == #[trigger] crate::digits::decimal(x as nat) && p.1 == Some(
                m[x],
            );
        ids_are_read(x);
        ids_are_read(id);
        let hit = exists|i: int|
            0 <= i < k && (#[trigger] pairs[i]).0 == crate::digits::decimal(id as nat);
        let hit_before = exists|i: int|
            0 <= i < k - 1 && (#[trigger] pairs[i]).0 == crate::digits::decimal(id as nat);
        if x == id {
            assert(pairs[k - 1].0 == crate::digits::decimal(id as nat));
            assert(hit);
        } else {
            assert(p.0 != crate::digits::decimal(id as nat));
            assert(hit == hit_before);
        }
    }
}

/// Teams that were saved are loaded back. A team whose name is empty, and one
/// that was not saved, has the name that is known for it.
pub proof fn file_gives_the_teams_back(
    m: Map<u8, Seq<char>>,
    text: Seq<char>,
    res: Map<u8, Seq<char>>,
    id: u8,
)
    requires
        crate::json::parsed(text) == Some(Json::Table(team_table(m, 256))),
        loaded(crate::json::parsed(text), res),
    ensures
        if m.dom().contains(id) && m[id].len() > 0 {
            res.dom().contains(id) && res[id] == m[id]
        } else {
            &&& res.dom().contains(id) == known_teams().dom().contains(id)
            &&& known_teams().dom().contains(id) ==> res[id] == known_teams()[id]
        },
{
    let t = team_table(m, 256);
    assert(crate::json::parsed(text)->0->Table_0 == t);
    let pairs = choose|pairs: Seq<(Seq<char>, Option<Seq<char>>)>| #[trigger]
        are_entries(crate::json::parsed(text)->0->Table_0, pairs) && res == with_entries(
            known_teams(),
            pairs,
            pairs.len() as int,
        );
    table_rows(m, 256);
    assert forall|i: int| 0 <= i < pairs.len() implies is_saved(m, #[trigger] pairs[i]) by {
        assert(t.dom().contains(pairs[i].0));
        let x = choose|x: u8|
            x < 256 && m.dom().contains(x) && pairs[i].0 == #[trigger] crate::digits::decimal(
                x as nat,
            );
        assert(t[crate::digits::decimal(x as nat)] == Json::Text(m[x]));
    }
    entries_set_names(known_teams(), m, pairs, pairs.len() as int, id);
    let key = crate::digits::decimal(id as nat);
    if m.dom().contains(id) {
        assert(t.dom().contains(key));
        let i = choose|i: int| 0 <= i < pairs.len() && (#[trigger] pairs[i]).0 == key;
        assert(pairs[i].0 == key);
    } else {
        assert forall|i: int| 0 <= i < pairs.len() implies (#[trigger] pairs[i]).0 != key by {
            assert(is_saved(m, pairs[i]));
            let x = choose|x: u8|
                m.dom().contains(x) && pairs[i].0 == #[trigger] crate::digits::decimal(x as nat)
                    && pairs[i].1 == Some(m[x]);
            ids_are_read(x);
            ids_are_read(id);
        }
    }
}

/// Gives a team the name that was typed, without white space around it. An
/// empty name takes the team's name away.
pub fn rename_team(m: &mut HashMap<u8, String>, team: u8, typed: &str)
    ensures
        names(final(m)@) == if crate::text::trimmed(typed@).len() == 0 {
            names(old(m)@).remove(team)
        } else {
            names(old(m)@).insert(team, crate::text::trimmed(typed@))
        },
{
    let ghost before = m@;
    let name = trim(typed);
    if name.is_empty() {
        let _ = m.remove(&team);
        assert(names(m@) =~= names(before).remove(team));
    } else {
        let _ = m.insert(team, name.to_owned());
        assert(names(m@) =~= names(before).insert(team, name@));
    }
}

} // verus!
