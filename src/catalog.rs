//! The token catalog: kinds, merge thresholds and the promotion ladder.
use vstd::prelude::*;

verus! {

/// The screens the game shell switches between.
#[derive(Debug, Clone, Copy, PartialEq, Eq, Structural, Default)]
pub enum AppState {
    Menu,
    #[default]
    Game,
    Lost,
}

/// The kind of a token: a ladder of values plus two special kinds.
#[derive(Debug, Clone, Copy, PartialEq, Eq, Structural, Hash)]
pub enum ObjType {
    One,
    Five,
    Ten,
    Fifty,
    OneHundred,
    FiveHundred,
    RankUp,
    EraseItem,
}

/// Minimum size of a cluster of `t` that promotes.
pub open spec fn merge_count(t: ObjType) -> nat {
    match t {
        ObjType::One => 5,
        ObjType::Five => 2,
        ObjType::Ten => 5,
        ObjType::Fifty => 2,
        ObjType::OneHundred => 5,
        ObjType::FiveHundred => 2,
        ObjType::RankUp => 2,
        ObjType::EraseItem => 2,
    }
}

/// The next rung of the ladder, if any.
pub open spec fn upgrade(t: ObjType) -> Option<ObjType> {
    match t {
        ObjType::One => Some(ObjType::Five),
        ObjType::Five => Some(ObjType::Ten),
        ObjType::Ten => Some(ObjType::Fifty),
        ObjType::Fifty => Some(ObjType::OneHundred),
        ObjType::OneHundred => Some(ObjType::FiveHundred),
        _ => None,
    }
}

/// Relative spawn weight of `t` in a freshly drawn row.
pub open spec fn spawn_weight(t: ObjType) -> nat {
    match t {
        ObjType::FiveHundred => 5,
        ObjType::RankUp => 1,
        ObjType::EraseItem => 1,
        _ => 10,
    }
}

/// Image file that shows `t`.
pub open spec fn path_of(t: ObjType) -> Seq<char> {
    match t {
        ObjType::One => "one.png"@,
        ObjType::Five => "five.png"@,
        ObjType::Ten => "ten.png"@,
        ObjType::Fifty => "fifty.png"@,
        ObjType::OneHundred => "one_hundred.png"@,
        ObjType::FiveHundred => "five_hundred.png"@,
        ObjType::RankUp => "rank_up.png"@,
        ObjType::EraseItem => "erase.png"@,
    }
}

impl ObjType {
    pub fn get_path(&self) -> (r: &'static str)
        ensures
            r@ == path_of(*self),
    {
        match self {
            ObjType::One => "one.png",
            ObjType::Five => "five.png",
            ObjType::Ten => "ten.png",
            ObjType::Fifty => "fifty.png",
            ObjType::OneHundred => "one_hundred.png",
            ObjType::FiveHundred => "five_hundred.png",
            ObjType::RankUp => "rank_up.png",
            ObjType::EraseItem => "erase.png",
        }
    }

    pub fn get_merge_count(&self) -> (r: usize)
        ensures
            r == merge_count(*self),
            r >= 1,
    {
        match self {
            ObjType::One => 5,
            ObjType::Five => 2,
            ObjType::Ten => 5,
            ObjType::Fifty => 2,
            ObjType::OneHundred => 5,
            ObjType::FiveHundred => 2,
            ObjType::RankUp => 2,
            ObjType::EraseItem => 2,
        }
    }

    pub fn get_upgrade(&self) -> (r: Option<Self>)
        ensures
            r == upgrade(*self),
    {
        match self {
            ObjType::One => Some(ObjType::Five),
            ObjType::Five => Some(ObjType::Ten),
            ObjType::Ten => Some(ObjType::Fifty),
            ObjType::Fifty => Some(ObjType::OneHundred),
            ObjType::OneHundred => Some(ObjType::FiveHundred),
            ObjType::FiveHundred => None,
            ObjType::RankUp => None,
            ObjType::EraseItem => None,
        }
    }
}

/// One entry of the catalog: a kind and its spawn weight.
#[derive(Debug, Clone, Copy, PartialEq, Eq, Structural)]
pub struct ObjInfo {
    pub obj_type: ObjType,
    pub weight: u32,
}

/// The catalog in ladder order, then the special kinds.
pub open spec fn board_objs_spec() -> Seq<ObjInfo> {
    seq![
        ObjInfo { obj_type: ObjType::One, weight: 10 },
        ObjInfo { obj_type: ObjType::Five, weight: 10 },
        ObjInfo { obj_type: ObjType::Ten, weight: 10 },
        ObjInfo { obj_type: ObjType::Fifty, weight: 10 },
        ObjInfo { obj_type: ObjType::OneHundred, weight: 10 },
        ObjInfo { obj_type: ObjType::FiveHundred, weight: 5 },
        ObjInfo { obj_type: ObjType::RankUp, weight: 1 },
        ObjInfo { obj_type: ObjType::EraseItem, weight: 1 },
    ]
}

/// The default catalog: every kind once, with its spawn weight.
pub fn board_objs() -> (r: Vec<ObjInfo>)
    ensures
        r@ == board_objs_spec(),
        forall|i: int| 0 <= i < r@.len() ==> r@[i].weight == spawn_weight(#[trigger] r@[i].obj_type),
{
    let r = vec![
        ObjInfo { obj_type: ObjType::One, weight: 10 },
        ObjInfo { obj_type: ObjType::Five, weight: 10 },
        ObjInfo { obj_type: ObjType::Ten, weight: 10 },
        ObjInfo { obj_type: ObjType::Fifty, weight: 10 },
        ObjInfo { obj_type: ObjType::OneHundred, weight: 10 },
        ObjInfo { obj_type: ObjType::FiveHundred, weight: 5 },
        ObjInfo { obj_type: ObjType::RankUp, weight: 1 },
        ObjInfo { obj_type: ObjType::EraseItem, weight: 1 },
    ];
    assert(r@ =~= board_objs_spec());
    r
}

} // verus!
