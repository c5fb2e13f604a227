//! Pitches: their numbers, names and directions.

use vstd::prelude::*;
use vstd::string::*;

use crate::digits::push_decimal;
use crate::text::same_text;

verus! {

/// An empty pitch slot.
pub const BALL_EMPTY: u8 = 37;

/// An original pitch, whose name stands in a record of its own.
pub const BALL_ORIGINAL: u8 = 36;

/// The highest number that a pitch slot can hold.
pub const BALL_MAX_ID: u8 = 45;

/// Number and name of every pitch. The name depends on the number alone.
pub const BALL_NAMES: [(u8, &'static str); 43] = [
    (0, "直球"),
    (1, "飄移快速球"),
    (2, "二縫線快速球"),
    (3, "慢速直球"),
    (4, "滑球"),
    (5, "高速滑球"),
    (6, "卡特球"),
    (7, "慢速滑球"),
    (8, "曲球"),
    (9, "慢速曲球"),
    (10, "垂直曲球"),
    (11, "滑曲球"),
    (12, "超慢速曲球"),
    (13, "彈指曲球"),
    (14, "指叉球"),
    (15, "掌心球"),
    (16, "蝴蝶球"),
    (17, "縱向滑球"),
    (18, "變速球"),
    (19, "快速指叉球"),
    (20, "縱向卡特球"),
    (21, "滑行掌心球"),
    (22, "慢速變速球"),
    (23, "伸卡球"),
    (24, "螺旋球"),
    (25, "高速伸卡球"),
    (26, "高速螺旋球"),
    (27, "慢速伸卡球"),
    (28, "慢速螺旋球"),
    (29, "超高速伸卡球"),
    (30, "超高速螺旋球"),
    (31, "圈指變速球"),
    (32, "慢速圈指變速球"),
    (33, "噴射球"),
    (34, "高速噴射球"),
    (35, "快速下沉球"),
    (36, "原創球種"),
    (38, "真滑球"),
    (39, "自然噴射球"),
    (40, "慢速魔球"),
    (41, "強力曲球"),
    (42, "螺旋指叉球"),
    (43, "變速指叉球"),
];

/// First number, last number and direction: numbers are handed out by direction.
pub const BALL_DIR_RANGES: [(u8, u8, usize); 10] = [
    (0, 3, 5),
    (4, 7, 0),
    (8, 13, 1),
    (14, 22, 2),
    (23, 32, 3),
    (33, 35, 4),
    (38, 40, 5),
    (41, 41, 1),
    (42, 42, 2),
    (43, 43, 3),
];

/// Japanese names of original pitches with a Chinese rendering. The game shows
/// the Japanese name.
pub const JP_ZH: [(&'static str, &'static str); 35] = [
    ("カットボール", "卡特球"),
    ("スイーパー", "橫掃球"),
    ("スライダー", "滑球"),
    ("ライズカット", "上飄卡特"),
    ("高速スライダー", "高速滑球"),
    ("縦スライダー", "縱向滑球"),
    ("カーブ", "曲球"),
    ("高速カーブ", "高速曲球"),
    ("ナックルカーブ", "彈指曲球"),
    ("マッスルカーブ", "肌肉曲球"),
    ("オージーカーブ", "OG曲球"),
    ("カツオカーブ", "鰹魚曲球"),
    ("ジェッスラ", "噴射滑球"),
    ("スローボール", "慢速球"),
    ("フォーク", "指叉球"),
    ("フォースラ", "指叉滑球"),
    ("フォーチェ", "指叉變速"),
    ("ＳＦＦ", "SFF快速指叉"),
    ("パーム", "掌心球"),
    ("ジャイロスプリット", "螺旋指叉"),
    ("ジャイロスライダー", "螺旋滑球"),
    ("スプリンカー", "指叉伸卡"),
    ("河野ボール", "河野球"),
    ("チェンジアップ", "變速球"),
    ("スプリット", "分指球"),
    ("スプリットチェンジ", "分指變速"),
    ("スプリーム", "至尊球"),
    ("シンカー", "伸卡球"),
    ("ツーシーム", "二縫線"),
    ("ワンシーム", "一縫線"),
    ("こやシン", "小屋伸卡"),
    ("ツーシームファスト", "二縫線快速球"),
    ("ストレート", "直球"),
    ("マッスルストレート", "肌肉直球"),
    ("火の玉ストレート", "火球直球"),
];

/// Grades from the lowest to the highest.
pub const LEVELS: [&'static str; 8] = ["G", "F", "E", "D", "C", "B", "A", "S"];

/// The six families of pitches, by direction.
pub const DIR_SERIES: [&'static str; 6] = ["滑球系", "曲球系", "指叉球系", "伸卡球系", "噴射球系", "直球系"];

/// Where each family stands in the game's pitch chart.
pub const DIR_UI: [&'static str; 6] = [
    "右投左 / 左投右",
    "右投左下 / 左投右下",
    "下",
    "右投右下 / 左投左下",
    "右投右 / 左投左",
    "上",
];

/// The order in which the families are shown: straight balls come first.
pub const DIR_ORDER: [usize; 6] = [5, 0, 1, 2, 3, 4];

/// The direction that a pitch belongs to.
pub open spec fn dir_of(id: u8) -> Option<usize> {
    if id <= 3 || 38 <= id <= 40 {
        Some(5)
    } else if 4 <= id <= 7 {
        Some(0)
    } else if 8 <= id <= 13 || id == 41 {
        Some(1)
    } else if 14 <= id <= 22 || id == 42 {
        Some(2)
    } else if 23 <= id <= 32 || id == 43 {
        Some(3)
    } else if 33 <= id <= 35 {
        Some(4)
    } else {
        None
    }
}

/// The text that a table gives for `id`: that of the first entry.
pub open spec fn entry_for(t: Seq<(u8, &'static str)>, id: u8) -> Option<Seq<char>>
    decreases t.len(),
{
    if t.len() == 0 {
        None
    } else if t[0].0 == id {
        Some(t[0].1@)
    } else {
        entry_for(t.skip(1), id)
    }
}

/// The name that is shown for a pitch.
pub open spec fn ball_text(id: u8) -> Seq<char> {
    if id == BALL_EMPTY {
        "－（空）"@
    } else {
        match entry_for(BALL_NAMES@, id) {
            Some(s) => s,
            None => "★未知 ID"@ + crate::digits::decimal(id as nat),
        }
    }
}

/// The pitches that can be chosen in a direction: none, an original one, and
/// the ordinary ones of the direction.
pub open spec fn choices(dir: usize) -> Seq<u8> {
    seq![BALL_EMPTY, BALL_ORIGINAL] + BALL_NAMES@.filter(
        |e: (u8, &'static str)| e.0 != BALL_ORIGINAL && dir_of(e.0) == Some(dir),
    ).map_values(|e: (u8, &'static str)| e.0)
}

/// The Chinese rendering that a table gives for a Japanese name.
pub open spec fn rendering(t: Seq<(&'static str, &'static str)>, n: Seq<char>) -> Option<Seq<char>>
    decreases t.len(),
{
    if t.len() == 0 {
        None
    } else if t[0].0@ == n {
        Some(t[0].1@)
    } else {
        rendering(t.skip(1), n)
    }
}

/// The Chinese rendering in front of the name that the game shows.
pub open spec fn zh_text(n: Seq<char>) -> Seq<char> {
    match rendering(JP_ZH@, n) {
        Some(zh) => zh + "（"@ + n + "）"@,
        None => n,
    }
}

/// The grade that a number stands for.
pub open spec fn level_text(n: u8) -> Seq<char> {
    if n < 8 {
        LEVELS@[n as int]@
    } else {
        "?"@
    }
}

/// The direction that a pitch belongs to.
pub fn ball_dir(id: u8) -> (res: Option<usize>)
    ensures
        res == dir_of(id),
{
    let mut i: usize = 0;
    while i < BALL_DIR_RANGES.len()
        invariant
            i <= 10,
            forall|j: int|
                0 <= j < i ==> !((#[trigger] BALL_DIR_RANGES@[j]).0 <= id <= BALL_DIR_RANGES@[j].1),
        decreases 10 - i,
    {
        let r = BALL_DIR_RANGES[i];
        if id >= r.0 && id <= r.1 {
            return Some(r.2);
        }
        i += 1;
    }
    assert(!(BALL_DIR_RANGES@[0].0 <= id <= BALL_DIR_RANGES@[0].1));
    assert(!(BALL_DIR_RANGES@[1].0 <= id <= BALL_DIR_RANGES@[1].1));
    assert(!(BALL_DIR_RANGES@[2].0 <= id <= BALL_DIR_RANGES@[2].1));
    assert(!(BALL_DIR_RANGES@[3].0 <= id <= BALL_DIR_RANGES@[3].1));
    assert(!(BALL_DIR_RANGES@[4].0 <= id <= BALL_DIR_RANGES@[4].1));
    assert(!(BALL_DIR_RANGES@[5].0 <= id <= BALL_DIR_RANGES@[5].1));
    assert(!(BALL_DIR_RANGES@[6].0 <= id <= BALL_DIR_RANGES@[6].1));
    assert(!(BALL_DIR_RANGES@[7].0 <= id <= BALL_DIR_RANGES@[7].1));
    assert(!(BALL_DIR_RANGES@[8].0 <= id <= BALL_DIR_RANGES@[8].1));
    assert(!(BALL_DIR_RANGES@[9].0 <= id <= BALL_DIR_RANGES@[9].1));
    None
}

/// The name that is shown for a pitch.
pub fn ball_name(id: u8) -> (res: String)
    ensures
        res@ == ball_text(id),
{
    if id == BALL_EMPTY {
        return "－（空）".to_owned();
    }
    let mut i: usize = 0;
    let ghost t = BALL_NAMES@;
    assert(t.skip(0) =~= t);
    while i < BALL_NAMES.len()
        invariant
            t == BALL_NAMES@,
            i <= t.len(),
            id != BALL_EMPTY,
            entry_for(t, id) == entry_for(t.skip(i as int), id),
        decreases t.len() - i,
    {
        let e = BALL_NAMES[i];
        assert(t.skip(i as int)[0] == e);
        assert(t.skip(i as int).skip(1) =~= t.skip(i + 1));
        if e.0 == id {
            return e.1.to_owned();
        }
        i += 1;
    }
    let mut s = "★未知 ID".to_owned();
    push_decimal(&mut s, id as u64);
    s
}

/// The pitches that can be chosen in a direction.
pub fn balls_for_dir(dir: usize) -> (res: Vec<u8>)
    ensures
        res@ == choices(dir),
{
    let ghost keep = |e: (u8, &'static str)| e.0 != BALL_ORIGINAL && dir_of(e.0) == Some(dir);
    let ghost id = |e: (u8, &'static str)| e.0;
    let ghost t = BALL_NAMES@;
    let mut v: Vec<u8> = vec![BALL_EMPTY, BALL_ORIGINAL];
    let mut i: usize = 0;
    assert(v@ =~= seq![BALL_EMPTY, BALL_ORIGINAL] + t.take(0).filter(keep).map_values(id)) by {
        reveal(Seq::filter);
    }
    while i < BALL_NAMES.len()
        invariant
            t == BALL_NAMES@,
            i <= t.len(),
            keep == (|e: (u8, &'static str)| e.0 != BALL_ORIGINAL && dir_of(e.0) == Some(dir)),
            id == (|e: (u8, &'static str)| e.0),
            v@ == seq![BALL_EMPTY, BALL_ORIGINAL] + t.take(i as int).filter(keep).map_values(id),
        decreases t.len() - i,
    {
        proof {
            reveal(Seq::filter);
            assert(t.take(i + 1).drop_last() =~= t.take(i as int));
        }
        let e = BALL_NAMES[i];
        assert(t.take(i + 1).last() == e);
        if e.0 != BALL_ORIGINAL && ball_dir(e.0) == Some(dir) {
            v.push(e.0);
        }
        i += 1;
        assert(v@ =~= seq![BALL_EMPTY, BALL_ORIGINAL] + t.take(i as int).filter(keep).map_values(id));
    }
    assert(t.take(i as int) =~= t);
    v
}

/// The Chinese rendering in front of the name that the game shows.
pub fn zh_name(n: &str) -> (res: String)
    ensures
        res@ == zh_text(n@),
{
    let mut i: usize = 0;
    let ghost t = JP_ZH@;
    assert(t.skip(0) =~= t);
    while i < JP_ZH.len()
        invariant
            t == JP_ZH@,
            i <= t.len(),
            rendering(t, n@) == rendering(t.skip(i as int), n@),
        decreases t.len() - i,
    {
        let e = JP_ZH[i];
        assert(t.skip(i as int)[0] == e);
        assert(t.skip(i as int).skip(1) =~= t.skip(i + 1));
        if same_text(e.0, n) {
            let mut s = e.1.to_owned();
            s.append("（");
            s.append(n);
            s.append("）");
            return s;
        }
        i += 1;
    }
    n.to_owned()
}

/// The grade that a number stands for.
pub fn lv(n: u8) -> (res: &'static str)
    ensures
        res@ == level_text(n),
{
    if n < 8 {
        LEVELS[n as usize]
    } else {
        "?"
    }
}

/// A direction offers none, the original pitch, and nothing that belongs to
/// another direction.
pub proof fn choices_keep_to_their_direction(dir: usize, i: int)
    requires
        0 <= i < choices(dir).len(),
    ensures
        choices(dir)[0] == BALL_EMPTY,
        choices(dir)[1] == BALL_ORIGINAL,
        i >= 2 ==> dir_of(choices(dir)[i]) == Some(dir),
{
    let keep = |e: (u8, &'static str)| e.0 != BALL_ORIGINAL && dir_of(e.0) == Some(dir);
    let kept = BALL_NAMES@.filter(keep);
    if i >= 2 {
        BALL_NAMES@.lemma_filter_pred(keep, i - 2);
        assert(choices(dir)[i] == kept[i - 2].0);
    }
}

} // verus!
