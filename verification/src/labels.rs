//! The label table of the assembler: names bound to addresses.

use vstd::prelude::*;
use crate::text::same;

verus! {

/// A name and the address that it is bound to.
pub struct Label {
    /// The name.
    pub name: Vec<char>,
    /// The address of the instruction that follows the definition.
    pub address: u32,
}

/// The bindings that `labels` make when they are read in order: a later label
/// replaces an earlier one of the same name.
pub open spec fn bindings(labels: Seq<Label>) -> Map<Seq<char>, u32>
    decreases labels.len(),
{
    if labels.len() == 0 {
        Map::empty()
    } else {
        bindings(labels.drop_last()).insert(labels.last().name@, labels.last().address)
    }
}

/// Whether no two labels have the same name.
pub open spec fn distinct_names(labels: Seq<Label>) -> bool {
    forall|i: int, j: int|
        0 <= i < j < labels.len() ==> (#[trigger] labels[i]).name@ != (#[trigger] labels[j]).name@
}

/// The last label of a name decides what the name is bound to.
pub proof fn lemma_last_label_wins(labels: Seq<Label>, at: int)
    requires
        0 <= at < labels.len(),
        forall|j: int| at < j < labels.len() ==> (#[trigger] labels[j]).name@ != labels[at].name@,
    ensures
        bindings(labels).contains_key(labels[at].name@),
        bindings(labels)[labels[at].name@] == labels[at].address,
    decreases labels.len(),
{
    if at < labels.len() - 1 {
        assert(labels.last() == labels[labels.len() - 1]);
        lemma_last_label_wins(labels.drop_last(), at);
    }
}

/// A name that no label has is not bound.
pub proof fn lemma_unknown_name(labels: Seq<Label>, name: Seq<char>)
    requires
        forall|j: int| 0 <= j < labels.len() ==> (#[trigger] labels[j]).name@ != name,
    ensures
        !bindings(labels).contains_key(name),
    decreases labels.len(),
{
    if labels.len() > 0 {
        assert(labels.last() == labels[labels.len() - 1]);
        lemma_unknown_name(labels.drop_last(), name);
    }
}

/// Replacing the last label of a name binds the name anew and nothing else.
pub proof fn lemma_rebinding(labels: Seq<Label>, at: int, label: Label)
    requires
        0 <= at < labels.len(),
        label.name@ == labels[at].name@,
        forall|j: int| at < j < labels.len() ==> (#[trigger] labels[j]).name@ != label.name@,
    ensures
        bindings(labels.update(at, label)) == bindings(labels).insert(label.name@, label.address),
    decreases labels.len(),
{
    let updated = labels.update(at, label);
    if at == labels.len() - 1 {
        assert(updated.drop_last() =~= labels.drop_last());
        assert(bindings(updated) =~= bindings(labels).insert(label.name@, label.address));
    } else {
        assert(labels.last() == labels[labels.len() - 1]);
        lemma_rebinding(labels.drop_last(), at, label);
        assert(updated.drop_last() =~= labels.drop_last().update(at, label));
        assert(updated.last() == labels.last());
        assert(bindings(updated) =~= bindings(labels).insert(label.name@, label.address));
    }
}

/// A table of labels: a list of names, each with the address it is bound to.
pub struct LabelTable {
    labels: Vec<Label>,
}

impl View for LabelTable {
    type V = Map<Seq<char>, u32>;

    closed spec fn view(&self) -> Map<Seq<char>, u32> {
        bindings(self.labels@)
    }
}

impl LabelTable {
    /// The labels that the table holds, in the order in which their names
    /// were first bound.
    pub closed spec fn labels(&self) -> Seq<Label> {
        self.labels@
    }

    /// Whether no two labels of the table have the same name.
    pub closed spec fn distinct(&self) -> bool {
        distinct_names(self.labels@)
    }

    /// A distinct table is one whose labels have distinct names.
    pub proof fn lemma_distinct(&self)
        ensures
            self.distinct() == distinct_names(self.labels()),
    {
    }

    /// The table is what its labels bind.
    pub proof fn lemma_view(&self)
        ensures
            self@ == bindings(self.labels()),
    {
    }

    /// Creates an empty table.
    pub fn new() -> (table: Self)
        ensures
            table@ == Map::<Seq<char>, u32>::empty(),
            table.labels() == Seq::<Label>::empty(),
            table.distinct(),
    {
        LabelTable { labels: Vec::new() }
    }

    /// The index of the label called `name`, if there is one.
    fn find(&self, name: &[char]) -> (found: Option<usize>)
        ensures
            match found {
                Some(at) => at < self.labels@.len() && self.labels@[at as int].name@ == name@
                    && forall|j: int|
                    at < j < self.labels@.len() ==> (#[trigger] self.labels@[j]).name@ != name@,
                None => forall|j: int|
                    0 <= j < self.labels@.len() ==> (#[trigger] self.labels@[j]).name@ != name@,
            },
    {
        let mut at: usize = self.labels.len();
        while at > 0
            invariant
                at <= self.labels@.len(),
                forall|j: int|
                    at <= j < self.labels@.len() ==> (#[trigger] self.labels@[j]).name@ != name@,
            decreases at,
        {
            at -= 1;
            if same(self.labels[at].name.as_slice(), name) {
                return Some(at);
            }
        }
        None
    }

    /// The address that `name` is bound to.
    pub fn get(&self, name: &[char]) -> (address: Option<u32>)
        ensures
            match address {
                Some(address) => self@.contains_key(name@) && self@[name@] == address,
                None => !self@.contains_key(name@),
            },
    {
        match self.find(name) {
            Some(at) => {
                proof {
                    lemma_last_label_wins(self.labels@, at as int);
                }
                Some(self.labels[at].address)
            },
            None => {
                proof {
                    lemma_unknown_name(self.labels@, name@);
                }
                None
            },
        }
    }

    /// Binds `name` to `address`. An earlier binding of `name` is replaced.
    pub fn insert(&mut self, name: Vec<char>, address: u32)
        ensures
            final(self)@ == old(self)@.insert(name@, address),
            old(self).distinct() ==> final(self).distinct(),
            final(self).labels().len() >= old(self).labels().len(),
    {
        match self.find(name.as_slice()) {
            Some(at) => {
                let label = Label { name, address };
                proof {
                    lemma_rebinding(self.labels@, at as int, label);
                }
                self.labels.set(at, label);
            },
            None => {
                let ghost before = self.labels@;
                self.labels.push(Label { name, address });
                assert(self.labels@.drop_last() =~= before);
            },
        }
    }

    /// The number of names that are bound.
    pub fn len(&self) -> (count: usize)
        ensures
            count == self.labels().len(),
    {
        self.labels.len()
    }

    /// Label `at` of the table.
    pub fn label(&self, at: usize) -> (label: &Label)
        requires
            at < self.labels().len(),
        ensures
            *label == self.labels()[at as int],
    {
        &self.labels[at]
    }
}

} // verus!
