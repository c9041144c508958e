//! The kinds of matter that fill a region of a level, and sets of them.

use vstd::prelude::*;

verus! {

/// What fills a convex region of the level.
#[derive(Clone, Copy, PartialEq, Eq, Structural, Debug)]
pub enum LeafContents {
    Empty,
    Solid,
    Water,
    Slime,
    Lava,
    Sky,
    Origin,
    Clip,
}

impl LeafContents {
    /// The position of the kind in the enumeration, from 0 to 7.
    pub open spec fn spec_index(self) -> int {
        match self {
            LeafContents::Empty => 0,
            LeafContents::Solid => 1,
            LeafContents::Water => 2,
            LeafContents::Slime => 3,
            LeafContents::Lava => 4,
            LeafContents::Sky => 5,
            LeafContents::Origin => 6,
            LeafContents::Clip => 7,
        }
    }

    /// The negative code that stands for the kind in level data.
    pub open spec fn spec_code(self) -> int {
        -(self.spec_index() + 1)
    }

    /// The kind that a code stands for, if any.
    pub open spec fn of_code(code: int) -> Option<LeafContents> {
        if code == -1 {
            Some(LeafContents::Empty)
        } else if code == -2 {
            Some(LeafContents::Solid)
        } else if code == -3 {
            Some(LeafContents::Water)
        } else if code == -4 {
            Some(LeafContents::Slime)
        } else if code == -5 {
            Some(LeafContents::Lava)
        } else if code == -6 {
            Some(LeafContents::Sky)
        } else if code == -7 {
            Some(LeafContents::Origin)
        } else if code == -8 {
            Some(LeafContents::Clip)
        } else {
            None
        }
    }

    /// The eight kinds, the kind with code `-(k + 1)` at position `k`.
    pub open spec fn all_kinds() -> Seq<LeafContents> {
        seq![
            LeafContents::Empty,
            LeafContents::Solid,
            LeafContents::Water,
            LeafContents::Slime,
            LeafContents::Lava,
            LeafContents::Sky,
            LeafContents::Origin,
            LeafContents::Clip,
        ]
    }

    pub fn index(self) -> (r: u8)
        ensures
            r == self.spec_index(),
    {
        match self {
            LeafContents::Empty => 0,
            LeafContents::Solid => 1,
            LeafContents::Water => 2,
            LeafContents::Slime => 3,
            LeafContents::Lava => 4,
            LeafContents::Sky => 5,
            LeafContents::Origin => 6,
            LeafContents::Clip => 7,
        }
    }

    pub fn code(self) -> (r: i32)
        ensures
            r == self.spec_code(),
    {
        -(self.index() as i32 + 1)
    }

    /// Decodes a content code; codes outside `-8..=-1` stand for nothing.
    pub fn from_repr(code: i32) -> (r: Option<LeafContents>)
        ensures
            r == Self::of_code(code as int),
    {
        match code {
            -1 => Some(LeafContents::Empty),
            -2 => Some(LeafContents::Solid),
            -3 => Some(LeafContents::Water),
            -4 => Some(LeafContents::Slime),
            -5 => Some(LeafContents::Lava),
            -6 => Some(LeafContents::Sky),
            -7 => Some(LeafContents::Origin),
            -8 => Some(LeafContents::Clip),
            _ => None,
        }
    }

    /// Decoding the code of a kind gives the kind back, and a code that
    /// decodes to a kind is the code of that kind.
    pub proof fn lemma_code_round_trip(kind: LeafContents, code: int)
        ensures
            Self::of_code(kind.spec_code()) == Some(kind),
            Self::of_code(code) matches Some(k) ==> k.spec_code() == code,
            Self::of_code(code).is_some() <==> -8 <= code <= -1,
            -8 <= code <= -1 ==> Self::of_code(code) == Some(Self::all_kinds()[-(code + 1)]),
    {
    }
}

/// Whether bit `i` of `bits` is set.
pub open spec fn bit(bits: u8, i: u8) -> bool {
    (bits >> i) & 1 == 1
}

/// A set of content kinds, one bit for each kind.
#[derive(Clone, Copy, PartialEq, Eq, Structural, Debug)]
pub struct ContentsSet {
    pub bits: u8,
}

impl View for ContentsSet {
    type V = Set<LeafContents>;

    open spec fn view(&self) -> Set<LeafContents> {
        Set::new(|kind: LeafContents| bit(self.bits, kind.spec_index() as u8))
    }
}

impl ContentsSet {
    /// The set with no kind in it.
    pub fn empty() -> (r: ContentsSet)
        ensures
            r@ == Set::<LeafContents>::empty(),
    {
        let r = ContentsSet { bits: 0 };
        proof {
            assert(forall|i: u8| i < 8 ==> !#[trigger] bit(0u8, i)) by (bit_vector);
            assert(r@ =~= Set::<LeafContents>::empty());
        }
        r
    }

    /// The set of all eight kinds.
    pub fn all() -> (r: ContentsSet)
        ensures
            r@ == Set::<LeafContents>::full(),
    {
        let r = ContentsSet { bits: 0xff };
        proof {
            assert(forall|i: u8| i < 8 ==> #[trigger] bit(0xffu8, i)) by (bit_vector);
            assert(r@ =~= Set::<LeafContents>::full());
        }
        r
    }

    /// The set that holds `kind` alone.
    pub fn only(kind: LeafContents) -> (r: ContentsSet)
        ensures
            r@ == set![kind],
    {
        let i: u8 = kind.index();
        let r = ContentsSet { bits: 1u8 << i };
        proof {
            assert(forall|j: u8| i < 8 && j < 8 ==> (#[trigger] bit(1u8 << i, j) <==> i == j))
                by (bit_vector);
            assert(r@ =~= set![kind]);
        }
        r
    }

    /// The set with `kind` added.
    pub fn with(self, kind: LeafContents) -> (r: ContentsSet)
        ensures
            r@ == self@.insert(kind),
    {
        let i: u8 = kind.index();
        let bits: u8 = self.bits;
        let r = ContentsSet { bits: bits | (1u8 << i) };
        proof {
            assert(forall|j: u8|
                i < 8 && j < 8 ==> (#[trigger] bit(bits | (1u8 << i), j) <==> bit(bits, j) || i
                    == j)) by (bit_vector);
            assert(r@ =~= self@.insert(kind));
        }
        r
    }

    /// Whether `kind` is in the set.
    pub fn contains(self, kind: LeafContents) -> (r: bool)
        ensures
            r == self@.contains(kind),
    {
        (self.bits >> kind.index()) & 1 == 1
    }

    /// The kinds that are not in the set.
    pub fn complement(self) -> (r: ContentsSet)
        ensures
            r@ == self@.complement(),
    {
        let bits: u8 = self.bits;
        let r = ContentsSet { bits: !bits };
        proof {
            assert(forall|j: u8| j < 8 ==> (#[trigger] bit(!bits, j) <==> !bit(bits, j)))
                by (bit_vector);
            assert(r@ =~= self@.complement());
        }
        r
    }
}

/// The kinds that a moving actor passes through: `Empty` alone.
pub fn default_passable() -> (r: ContentsSet)
    ensures
        r@ == set![LeafContents::Empty],
{
    ContentsSet::only(LeafContents::Empty)
}

} // verus!
