use vstd::prelude::*;

verus! {

/// A named outcome and its weight.
pub struct RandomEntry {
    pub name: String,
    pub weight: i32,
}

/// Outcomes to draw from, each in proportion to its weight.
pub struct RandomTable {
    pub entries: Vec<RandomEntry>,
    pub total_weight: i32,
}

/// The sum of the weights of `es`.
pub open spec fn weight_sum(es: Seq<RandomEntry>) -> int
    decreases es.len(),
{
    if es.len() == 0 { 0 } else { weight_sum(es.drop_last()) + es.last().weight }
}

impl RandomTable {
    /// The total is the sum of the weights, and every weight is positive.
    pub open spec fn wf(&self) -> bool {
        &&& self.total_weight == weight_sum(self.entries@)
        &&& forall|k: int| 0 <= k < self.entries@.len() ==> #[trigger] self.entries@[k].weight > 0
    }

    /// An empty table.
    pub fn new() -> (t: RandomTable)
        ensures
            t.wf(),
            t.entries@.len() == 0,
            t.total_weight == 0,
    {
        RandomTable { entries: Vec::new(), total_weight: 0 }
    }

    /// The table with `name` added at `weight`; an outcome of weight zero or less is
    /// left out.
    pub fn add(self, name: &str, weight: i32) -> (t: RandomTable)
        requires
            self.wf(),
            weight > 0 ==> self.total_weight + weight <= i32::MAX,
        ensures
            t.wf(),
            weight > 0 ==> t.entries@.len() == self.entries@.len() + 1
                && t.entries@.drop_last() == self.entries@
                && t.entries@.last().name@ == name@
                && t.entries@.last().weight == weight
                && t.total_weight == self.total_weight + weight,
            weight <= 0 ==> t.entries@ == self.entries@ && t.total_weight == self.total_weight,
    {
        let mut t = self;
        if weight > 0 {
            t.total_weight = t.total_weight + weight;
            t.entries.push(RandomEntry { name: String::from_str(name), weight });
            assert(t.entries@.drop_last() =~= self.entries@);
        }
        t
    }
}

} // verus!
