//! The variable store: which candidates may stand for which placeholder.

use vstd::prelude::*;
use crate::placeholder::{is_placeholder, is_token};
use crate::text::texts;

verus! {

/// A placeholder together with the texts that may be put in its place.
#[derive(Clone, Debug)]
pub struct PromptVariable {
    /// The placeholder, delimiters included.
    pub name: String,
    /// The candidates, in the order in which they were given.
    pub values: Vec<String>,
}

/// The mapping that a list of variables stands for. Where a name occurs
/// twice, the later variable counts.
pub open spec fn mapping_of(variables: Seq<PromptVariable>) -> Map<Seq<char>, Seq<Seq<char>>>
    decreases variables.len(),
{
    if variables.len() == 0 {
        Map::empty()
    } else {
        mapping_of(variables.drop_last()).insert(
            variables.last().name@,
            texts(variables.last().values@),
        )
    }
}

/// Whether no two variables of the list have the same name.
pub open spec fn distinct_names(variables: Seq<PromptVariable>) -> bool {
    forall|i: int, j: int|
        0 <= i < j < variables.len() ==> (#[trigger] variables[i]).name@ != (
        #[trigger] variables[j]).name@
}

/// Whether each variable of the list is named by a placeholder.
pub open spec fn placeholder_names(variables: Seq<PromptVariable>) -> bool {
    forall|i: int| 0 <= i < variables.len() ==> is_token((#[trigger] variables[i]).name@)
}

proof fn lemma_mapping_domain(variables: Seq<PromptVariable>, name: Seq<char>)
    ensures
        mapping_of(variables).contains_key(name) <==> exists|i: int|
            0 <= i < variables.len() && (#[trigger] variables[i]).name@ == name,
    decreases variables.len(),
{
    if variables.len() > 0 {
        let front = variables.drop_last();
        lemma_mapping_domain(front, name);
        if mapping_of(variables).contains_key(name) {
            if variables.last().name@ == name {
                assert(variables[variables.len() - 1].name@ == name);
            } else {
                let i = choose|i: int| 0 <= i < front.len() && (#[trigger] front[i]).name@ == name;
                assert(variables[i].name@ == name);
            }
        }
        if exists|i: int| 0 <= i < variables.len() && (#[trigger] variables[i]).name@ == name {
            let i = choose|i: int|
                0 <= i < variables.len() && (#[trigger] variables[i]).name@ == name;
            if i < front.len() {
                assert(front[i].name@ == name);
            }
        }
    }
}

proof fn lemma_mapping_value(variables: Seq<PromptVariable>, i: int)
    requires
        0 <= i < variables.len(),
        distinct_names(variables),
    ensures
        mapping_of(variables).contains_key(variables[i].name@),
        mapping_of(variables)[variables[i].name@] == texts(variables[i].values@),
    decreases variables.len(),
{
    let front = variables.drop_last();
    if i < variables.len() - 1 {
        assert(distinct_names(front)) by {
            assert forall|a: int, b: int| 0 <= a < b < front.len() implies (#[trigger] front[a]).name@
                != (#[trigger] front[b]).name@ by {
                assert(front[a] == variables[a] && front[b] == variables[b]);
            }
        }
        lemma_mapping_value(front, i);
        assert(front[i] == variables[i]);
        assert(variables[i].name@ != variables[variables.len() - 1].name@);
    }
}

proof fn lemma_mapping_update(variables: Seq<PromptVariable>, i: int, new: PromptVariable)
    requires
        0 <= i < variables.len(),
        distinct_names(variables),
        new.name@ == variables[i].name@,
    ensures
        mapping_of(variables.update(i, new)) == mapping_of(variables).insert(
            new.name@,
            texts(new.values@),
        ),
        distinct_names(variables.update(i, new)),
    decreases variables.len(),
{
    let updated = variables.update(i, new);
    let front = variables.drop_last();
    assert forall|a: int, b: int| 0 <= a < b < updated.len() implies (#[trigger] updated[a]).name@
        != (#[trigger] updated[b]).name@ by {
        assert(updated[a].name@ == variables[a].name@);
        assert(updated[b].name@ == variables[b].name@);
    }
    if i == variables.len() - 1 {
        assert(updated.drop_last() == front);
        assert(mapping_of(updated) =~= mapping_of(variables).insert(
            new.name@,
            texts(new.values@),
        ));
    } else {
        assert(distinct_names(front)) by {
            assert forall|a: int, b: int| 0 <= a < b < front.len() implies (#[trigger] front[a]).name@
                != (#[trigger] front[b]).name@ by {
                assert(front[a] == variables[a] && front[b] == variables[b]);
            }
        }
        assert(front[i] == variables[i]);
        lemma_mapping_update(front, i, new);
        assert(updated.drop_last() == front.update(i, new));
        assert(updated.last() == variables.last());
        assert(variables[i].name@ != variables[variables.len() - 1].name@);
        assert(mapping_of(updated) =~= mapping_of(variables).insert(
            new.name@,
            texts(new.values@),
        ));
    }
}

/// The variables known to a request, each under the placeholder that names
/// it.
pub struct VariableStore {
    variables: Vec<PromptVariable>,
}

impl View for VariableStore {
    type V = Map<Seq<char>, Seq<Seq<char>>>;

    closed spec fn view(&self) -> Map<Seq<char>, Seq<Seq<char>>> {
        mapping_of(self.variables@)
    }
}

impl VariableStore {
    /// What every store made by [`VariableStore::new`] and
    /// [`VariableStore::insert`] meets: no name stands in it twice, and
    /// every name is a placeholder.
    pub closed spec fn wf(self) -> bool {
        distinct_names(self.variables@) && placeholder_names(self.variables@)
    }

    /// How many variables the store holds.
    pub closed spec fn count(self) -> nat {
        self.variables@.len()
    }

    /// A store without variables.
    pub fn new() -> (store: VariableStore)
        ensures
            store.wf(),
            store@ == Map::<Seq<char>, Seq<Seq<char>>>::empty(),
            store.count() == 0,
    {
        VariableStore { variables: Vec::new() }
    }

    /// The number of variables in the store.
    pub fn len(&self) -> (n: usize)
        ensures
            n == self.count(),
    {
        self.variables.len()
    }

    /// Where the variable named `name` stands in the list.
    fn position(&self, name: &String) -> (at: Option<usize>)
        ensures
            match at {
                Some(i) => i < self.variables.len() && self.variables[i as int].name@ == name@,
                None => !self@.contains_key(name@),
            },
    {
        let mut i: usize = 0;
        while i < self.variables.len()
            invariant
                i <= self.variables.len(),
                forall|k: int| 0 <= k < i ==> (#[trigger] self.variables[k]).name@ != name@,
            decreases self.variables.len() - i,
        {
            if self.variables[i].name == *name {
                return Some(i);
            }
            i += 1;
        }
        proof {
            lemma_mapping_domain(self.variables@, name@);
        }
        None
    }

    /// The candidates of the placeholder `name`; `None` where the store has
    /// no variable of that name.
    pub fn lookup(&self, name: &String) -> (values: Option<&Vec<String>>)
        requires
            self.wf(),
        ensures
            match values {
                Some(v) => self@.contains_key(name@) && self@[name@] == texts(v@),
                None => !self@.contains_key(name@),
            },
    {
        match self.position(name) {
            Some(i) => {
                proof {
                    lemma_mapping_value(self.variables@, i as int);
                }
                Some(&self.variables[i].values)
            },
            None => None,
        }
    }

    /// Puts `values` under the placeholder `name`, in place of what stood
    /// there. A name that is no placeholder is refused, and the store stays
    /// as it was.
    pub fn insert(&mut self, name: String, values: Vec<String>) -> (accepted: bool)
        requires
            old(self).wf(),
        ensures
            final(self).wf(),
            accepted == is_token(name@),
            accepted ==> final(self)@ == old(self)@.insert(name@, texts(values@)),
            !accepted ==> final(self)@ == old(self)@ && final(self).count() == old(self).count(),
            accepted && old(self)@.contains_key(name@) ==> final(self).count() == old(self).count(),
            accepted && !old(self)@.contains_key(name@) ==> final(self).count() == old(
                self,
            ).count() + 1,
    {
        if !is_placeholder(name.as_str()) {
            return false;
        }
        proof {
            lemma_mapping_domain(self.variables@, name@);
        }
        let ghost before = self.variables@;
        match self.position(&name) {
            Some(i) => {
                let variable = PromptVariable { name, values };
                proof {
                    lemma_mapping_update(before, i as int, variable);
                    assert(before[i as int].name@ == variable.name@);
                    assert forall|k: int| 0 <= k < before.len() implies is_token(
                        (#[trigger] before.update(i as int, variable)[k]).name@,
                    ) by {
                        assert(before.update(i as int, variable)[k].name@ == before[k].name@);
                    }
                }
                self.variables.set(i, variable);
            },
            None => {
                let variable = PromptVariable { name, values };
                proof {
                    assert(before.push(variable).drop_last() == before);
                    assert forall|a: int, b: int|
                        0 <= a < b < before.len() + 1 implies (#[trigger] before.push(
                        variable,
                    )[a]).name@ != (#[trigger] before.push(variable)[b]).name@ by {
                        assert(before.push(variable)[a] == before[a]);
                        if b < before.len() {
                            assert(before.push(variable)[b] == before[b]);
                        }
                    }
                    assert forall|k: int| 0 <= k < before.len() + 1 implies is_token(
                        (#[trigger] before.push(variable)[k]).name@,
                    ) by {
                        if k < before.len() {
                            assert(before.push(variable)[k] == before[k]);
                        }
                    }
                }
                self.variables.push(variable);
            },
        }
        true
    }
}

proof fn lemma_mapping_size(variables: Seq<PromptVariable>)
    requires
        distinct_names(variables),
    ensures
        mapping_of(variables).dom().finite(),
        mapping_of(variables).dom().len() == variables.len(),
    decreases variables.len(),
{
    if variables.len() > 0 {
        let front = variables.drop_last();
        assert(distinct_names(front)) by {
            assert forall|a: int, b: int| 0 <= a < b < front.len() implies (#[trigger] front[a]).name@
                != (#[trigger] front[b]).name@ by {
                assert(front[a] == variables[a] && front[b] == variables[b]);
            }
        }
        lemma_mapping_size(front);
        lemma_mapping_domain(front, variables.last().name@);
        if mapping_of(front).contains_key(variables.last().name@) {
            let i = choose|i: int|
                0 <= i < front.len() && (#[trigger] front[i]).name@ == variables.last().name@;
            assert(variables[i].name@ == variables[variables.len() - 1].name@);
        }
        assert(mapping_of(variables).dom() == mapping_of(front).dom().insert(
            variables.last().name@,
        ));
    }
}

/// A store holds each of its placeholders once: it counts as many variables
/// as its mapping has keys.
pub proof fn lemma_count_is_size(store: VariableStore)
    requires
        store.wf(),
    ensures
        store@.dom().finite(),
        store@.dom().len() == store.count(),
{
    lemma_mapping_size(store.variables@);
}

/// Every name that a store knows is a placeholder.
pub proof fn lemma_names_are_placeholders(store: VariableStore, name: Seq<char>)
    requires
        store.wf(),
        store@.contains_key(name),
    ensures
        is_token(name),
{
    lemma_mapping_domain(store.variables@, name);
    let i = choose|i: int|
        0 <= i < store.variables@.len() && (#[trigger] store.variables@[i]).name@ == name;
    assert(is_token(store.variables@[i].name@));
}


} // verus!
