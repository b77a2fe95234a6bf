//! Mapping strength: a configurable table from a classification label to a
//! confidence level, measured in tenths (1 = 0.1, 10 = 1.0).
use vstd::prelude::*;

verus! {

/// Smallest strength a table may assign, in tenths.
pub const MIN_STRENGTH: u64 = 1;

/// Largest strength a table may assign, in tenths.
pub const MAX_STRENGTH: u64 = 10;

/// Configurable mapping-confidence policy: the first entry whose label equals
/// the record's mapping type gives the strength, else `fallback` does.
pub struct StrengthTable {
    pub levels: Vec<(String, u64)>,
    pub fallback: u64,
}

pub open spec fn valid_strength(s: u64) -> bool {
    MIN_STRENGTH <= s <= MAX_STRENGTH
}

/// Strength that the levels `levels` give to `label`: the first match wins.
pub open spec fn level_of(levels: Seq<(Seq<char>, u64)>, label: Seq<char>, fallback: u64) -> u64
    decreases levels.len(),
{
    if levels.len() == 0 {
        fallback
    } else if levels[0].0 == label {
        levels[0].1
    } else {
        level_of(levels.drop_first(), label, fallback)
    }
}

impl StrengthTable {
    pub open spec fn levels_view(&self) -> Seq<(Seq<char>, u64)> {
        self.levels@.map_values(|e: (String, u64)| (e.0@, e.1))
    }

    pub open spec fn wf(&self) -> bool {
        &&& valid_strength(self.fallback)
        &&& forall|i: int| 0 <= i < self.levels@.len() ==> valid_strength(#[trigger] self.levels@[i].1)
    }

    /// The strength this table gives to a mapping of type `label`.
    pub open spec fn spec_strength(&self, label: Seq<char>) -> u64 {
        level_of(self.levels_view(), label, self.fallback)
    }

    /// The standard policy: "Strong" 1.0, "Moderate" 0.7, "Weak" 0.4, anything else 0.1.
    pub fn standard() -> (t: StrengthTable)
        ensures
            t.wf(),
            t.levels_view() == seq![
                ("Strong"@, 10u64),
                ("Moderate"@, 7u64),
                ("Weak"@, 4u64),
            ],
            t.fallback == 1,
    {
        let mut levels: Vec<(String, u64)> = Vec::new();
        levels.push(("Strong".to_string(), 10));
        levels.push(("Moderate".to_string(), 7));
        levels.push(("Weak".to_string(), 4));
        let t = StrengthTable { levels, fallback: 1 };
        assert(t.levels_view() =~= seq![("Strong"@, 10u64), ("Moderate"@, 7u64), ("Weak"@, 4u64)]);
        t
    }

    /// The strength, in tenths, that this table gives to a mapping of type `label`.
    pub fn strength_of(&self, label: &String) -> (s: u64)
        requires
            self.wf(),
        ensures
            s == self.spec_strength(label@),
            valid_strength(s),
    {
        let mut i: usize = 0;
        assert(self.levels_view().skip(0) =~= self.levels_view());
        while i < self.levels.len()
            invariant
                self.wf(),
                i <= self.levels@.len(),
                level_of(self.levels_view(), label@, self.fallback)
                    == level_of(self.levels_view().skip(i as int), label@, self.fallback),
            decreases self.levels@.len() - i,
        {
            assert(self.levels_view().skip(i as int).drop_first() =~= self.levels_view().skip(i + 1));
            if self.levels[i].0 == *label {
                return self.levels[i].1;
            }
            i = i + 1;
        }
        assert(self.levels_view().skip(i as int) =~= Seq::<(Seq<char>, u64)>::empty());
        self.fallback
    }
}

} // verus!
