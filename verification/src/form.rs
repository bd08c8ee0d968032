//! Decoded form input: field names, each with the values submitted for it.

use vstd::prelude::*;

verus! {

/// The mapping that a list of fields stands for. Where a name occurs more
/// than once, the last occurrence counts.
pub open spec fn fields_map(fields: Seq<(String, Vec<String>)>) -> Map<Seq<char>, Seq<Seq<char>>>
    decreases fields.len(),
{
    if fields.len() == 0 {
        Map::empty()
    } else {
        fields_map(fields.drop_last()).insert(fields.last().0@, fields.last().1.deep_view())
    }
}

/// No two fields have the same name.
pub open spec fn distinct_names(fields: Seq<(String, Vec<String>)>) -> bool {
    forall|i: int, j: int|
        0 <= i < j < fields.len() ==> (#[trigger] fields[i]).0@ != (#[trigger] fields[j]).0@
}

/// A name that no field has is no key of the mapping.
proof fn lemma_absent_name(fields: Seq<(String, Vec<String>)>, name: Seq<char>)
    requires
        forall|i: int| 0 <= i < fields.len() ==> (#[trigger] fields[i]).0@ != name,
    ensures
        !fields_map(fields).contains_key(name),
    decreases fields.len(),
{
    if fields.len() > 0 {
        let front = fields.drop_last();
        assert forall|i: int| 0 <= i < front.len() implies (#[trigger] front[i]).0@ != name by {}
        lemma_absent_name(front, name);
    }
}

/// Among fields with distinct names, the field that has a name gives the
/// mapping's value for it.
proof fn lemma_present_name(fields: Seq<(String, Vec<String>)>, i: int)
    requires
        distinct_names(fields),
        0 <= i < fields.len(),
    ensures
        fields_map(fields).contains_key(fields[i].0@),
        fields_map(fields)[fields[i].0@] == fields[i].1.deep_view(),
    decreases fields.len(),
{
    if i < fields.len() - 1 {
        let front = fields.drop_last();
        assert(distinct_names(front)) by {
            assert forall|a: int, b: int| 0 <= a < b < front.len() implies (#[trigger] front[a]).0@
                != (#[trigger] front[b]).0@ by {}
        }
        lemma_present_name(front, i);
    }
}

/// Taking a field out changes the mapping at most at that field's name.
proof fn lemma_remove_field(fields: Seq<(String, Vec<String>)>, i: int, name: Seq<char>)
    requires
        0 <= i < fields.len(),
        name != fields[i].0@,
    ensures
        fields_map(fields.remove(i)).contains_key(name) == fields_map(fields).contains_key(name),
        fields_map(fields.remove(i)).contains_key(name) ==> fields_map(fields.remove(i))[name]
            == fields_map(fields)[name],
    decreases fields.len(),
{
    if i < fields.len() - 1 {
        lemma_remove_field(fields.drop_last(), i, name);
        assert(fields.remove(i).drop_last() =~= fields.drop_last().remove(i));
    }
}

/// Setting the value for a field's name gives the same mapping whether or
/// not the field is taken out first.
proof fn lemma_replace_field(fields: Seq<(String, Vec<String>)>, i: int, values: Seq<Seq<char>>)
    requires
        0 <= i < fields.len(),
    ensures
        fields_map(fields.remove(i)).insert(fields[i].0@, values) == fields_map(fields).insert(
            fields[i].0@,
            values,
        ),
{
    let name = fields[i].0@;
    let without = fields_map(fields.remove(i)).insert(name, values);
    let with = fields_map(fields).insert(name, values);
    assert forall|k: Seq<char>| #[trigger]
        without.dom().contains(k) == with.dom().contains(k) by {
        if k != name {
            lemma_remove_field(fields, i, k);
        }
    }
    assert forall|k: Seq<char>| #[trigger] without.dom().contains(k) implies without[k]
        == with[k] by {
        if k != name {
            lemma_remove_field(fields, i, k);
        }
    }
    assert(without =~= with);
}

/// Form input as it is after decoding: a mapping from each field name to the
/// values submitted under it, in the order in which they came.
#[derive(Debug)]
pub struct FormInput {
    fields: Vec<(String, Vec<String>)>,
}

impl View for FormInput {
    type V = Map<Seq<char>, Seq<Seq<char>>>;

    closed spec fn view(&self) -> Map<Seq<char>, Seq<Seq<char>>> {
        fields_map(self.fields@)
    }
}

impl FormInput {
    #[verifier::type_invariant]
    spec fn well_formed(self) -> bool {
        distinct_names(self.fields@)
    }

    /// Form input without any field.
    pub fn new() -> (form: FormInput)
        ensures
            form@ == Map::<Seq<char>, Seq<Seq<char>>>::empty(),
    {
        FormInput { fields: Vec::new() }
    }

    /// The position of the field called `name`, if there is one.
    fn position(&self, name: &String) -> (found: Option<usize>)
        ensures
            match found {
                Some(i) => i < self.fields@.len() && self.fields@[i as int].0@ == name@,
                None => forall|i: int|
                    0 <= i < self.fields@.len() ==> (#[trigger] self.fields@[i]).0@ != name@,
            },
    {
        let mut i: usize = 0;
        while i < self.fields.len()
            invariant
                i <= self.fields@.len(),
                forall|j: int| 0 <= j < i ==> (#[trigger] self.fields@[j]).0@ != name@,
            decreases self.fields@.len() - i,
        {
            if self.fields[i].0 == *name {
                return Some(i);
            }
            i += 1;
        }
        None
    }

    /// Sets the values of the field called `name`, in place of any values it
    /// had.
    pub fn insert(&mut self, name: String, values: Vec<String>)
        ensures
            final(self)@ == old(self)@.insert(name@, values.deep_view()),
    {
        proof {
            use_type_invariant(&*self);
        }
        let ghost before = self.fields@;
        let ghost key = name@;
        let found = self.position(&name);
        let mut fields: Vec<(String, Vec<String>)> = Vec::new();
        core::mem::swap(&mut self.fields, &mut fields);
        let ghost texts = values.deep_view();
        if let Some(i) = found {
            fields.remove(i);
            proof {
                lemma_replace_field(before, i as int, texts);
            }
        }
        let ghost middle = fields@;
        fields.push((name, values));
        proof {
            assert(fields@.drop_last() =~= middle);
        }
        self.fields = fields;
    }

    /// The values submitted under `name`, if the field is there.
    pub fn get(&self, name: &String) -> (values: Option<&Vec<String>>)
        ensures
            values is Some <==> self@.contains_key(name@),
            values matches Some(v) ==> v.deep_view() == self@[name@],
    {
        proof {
            use_type_invariant(self);
        }
        match self.position(name) {
            Some(i) => {
                proof {
                    lemma_present_name(self.fields@, i as int);
                }
                Some(&self.fields[i].1)
            },
            None => {
                proof {
                    lemma_absent_name(self.fields@, name@);
                }
                None
            },
        }
    }
}

} // verus!
