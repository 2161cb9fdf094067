use vstd::prelude::*;

use crate::assoc::{entries_map, lemma_entries_map_contains, lemma_entries_map_value};

verus! {

/// A variable's value: a number, held as the text it prints as, or a string.
#[derive(Clone, Debug, PartialEq)]
pub enum Value {
    Number(String),
    String(String),
}

/// A value, as the model sees it.
pub enum ValueModel {
    Number(Seq<char>),
    Text(Seq<char>),
}

impl View for Value {
    type V = ValueModel;

    open spec fn view(&self) -> ValueModel {
        match self {
            Value::Number(t) => ValueModel::Number(t@),
            Value::String(s) => ValueModel::Text(s@),
        }
    }
}

/// The text a value prints as.
pub open spec fn value_text(v: ValueModel) -> Seq<char> {
    match v {
        ValueModel::Number(t) => t,
        ValueModel::Text(s) => s,
    }
}

impl Value {
    /// The text the value prints as.
    pub fn stringify(&self) -> (r: String)
        ensures
            r@ == value_text(self@),
    {
        match self {
            Value::Number(t) => t.clone(),
            Value::String(s) => s.clone(),
        }
    }

    fn duplicate(&self) -> (r: Value)
        ensures
            r@ == self@,
    {
        match self {
            Value::Number(t) => Value::Number(t.clone()),
            Value::String(s) => Value::String(s.clone()),
        }
    }
}

/// The variables of one run, all global, and the stage the run is at.
pub struct GlobalEnvironment {
    values: Vec<(String, Value)>,
    pub stage: String,
}

impl GlobalEnvironment {
    /// The variables, by name.
    pub closed spec fn vars(&self) -> Map<Seq<char>, ValueModel> {
        entries_map(self.values@)
    }

    /// The name of the stage the run is at.
    pub closed spec fn at_stage(&self) -> Seq<char> {
        self.stage@
    }

    /// Moves the run to another stage.
    pub fn set_stage(&mut self, stage: String)
        ensures
            final(self).at_stage() == stage@,
            final(self).vars() == old(self).vars(),
    {
        self.stage = stage;
    }

    /// The name of the stage the run is at.
    pub fn stage_name(&self) -> (r: &str)
        ensures
            r@ == self.at_stage(),
    {
        self.stage.as_str()
    }

    /// No variables, at the entry stage `initial`.
    pub fn new() -> (r: Self)
        ensures
            r.vars() == Map::<Seq<char>, ValueModel>::empty(),
            r.at_stage() == "initial"@,
    {
        GlobalEnvironment { values: Vec::new(), stage: String::from_str("initial") }
    }

    /// Binds `name` to `value`, replacing an earlier binding of it.
    pub fn define(&mut self, name: String, value: Value)
        ensures
            final(self).vars() == old(self).vars().insert(name@, value@),
            final(self).at_stage() == old(self).at_stage(),
    {
        let ghost s = self.values@;
        self.values.push((name, value));
        proof {
            assert(self.values@.drop_last() =~= s);
        }
    }

    /// The value bound to `name`, if any.
    pub fn get(&self, name: &str) -> (r: Option<Value>)
        ensures
            r is Some <==> self.vars().contains_key(name@),
            r is Some ==> r->0@ == self.vars()[name@],
    {
        let key = String::from_str(name);
        let mut i: usize = self.values.len();
        while i > 0
            invariant
                key@ == name@,
                i <= self.values@.len(),
                forall|j: int| i <= j < self.values@.len() ==> #[trigger] self.values@[j].0@ != name@,
            decreases i,
        {
            i = i - 1;
            if self.values[i].0 == key {
                proof { lemma_entries_map_value(self.values@, name@, i as int); }
                return Some(self.values[i].1.duplicate());
            }
        }
        proof { lemma_entries_map_contains(self.values@, name@); }
        None
    }
}

} // verus!
