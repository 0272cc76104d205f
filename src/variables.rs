use vstd::prelude::*;

verus! {

/// The value bound to `name` in a table of (name, value) pairs: the first
/// entry with that name, if any.
pub open spec fn lookup(vars: Seq<(Seq<char>, i32)>, name: Seq<char>) -> Option<i32>
    decreases vars.len(),
{
    if vars.len() == 0 {
        None
    } else if vars[0].0 == name {
        Some(vars[0].1)
    } else {
        lookup(vars.drop_first(), name)
    }
}

/// The table after binding `name` to `value`: the first entry with that name
/// is overwritten, or a new entry is appended.
pub open spec fn bind(vars: Seq<(Seq<char>, i32)>, name: Seq<char>, value: i32) -> Seq<
    (Seq<char>, i32),
>
    decreases vars.len(),
{
    if vars.len() == 0 {
        seq![(name, value)]
    } else if vars[0].0 == name {
        vars.update(0, (name, value))
    } else {
        seq![vars[0]] + bind(vars.drop_first(), name, value)
    }
}

pub open spec fn vars_view(v: Seq<(String, i32)>) -> Seq<(Seq<char>, i32)> {
    v.map_values(|e: (String, i32)| (e.0@, e.1))
}

/// After binding, the name reads back as the bound value and every other name
/// is unaffected.
pub proof fn lemma_bind_lookup(vars: Seq<(Seq<char>, i32)>, name: Seq<char>, value: i32, other: Seq<char>)
    ensures
        lookup(bind(vars, name, value), other) == if other == name {
            Some(value)
        } else {
            lookup(vars, other)
        },
    decreases vars.len(),
{
    let b = bind(vars, name, value);
    if vars.len() == 0 {
        assert(b.drop_first() =~= Seq::<(Seq<char>, i32)>::empty());
        assert(lookup(b.drop_first(), other) == None::<i32>);
    } else if vars[0].0 != name {
        let rest = bind(vars.drop_first(), name, value);
        assert(b.drop_first() =~= rest);
        assert(b[0] == vars[0]);
        lemma_bind_lookup(vars.drop_first(), name, value, other);
    } else {
        assert(b.drop_first() =~= vars.drop_first());
        assert(b[0] == (name, value));
    }
}

/// Position of the first entry named `name`, if any.
fn find(vars: &Vec<(String, i32)>, name: &String) -> (r: Option<usize>)
    ensures
        match r {
            Some(i) => i < vars@.len() && vars@[i as int].0@ == name@ && forall|j: int|
                0 <= j < i ==> vars@[j].0@ != name@,
            None => forall|j: int| 0 <= j < vars@.len() ==> vars@[j].0@ != name@,
        },
{
    let mut i: usize = 0;
    while i < vars.len()
        invariant
            i <= vars@.len(),
            forall|j: int| 0 <= j < i ==> vars@[j].0@ != name@,
        decreases vars.len() - i,
    {
        if vars[i].0 == *name {
            return Some(i);
        }
        i = i + 1;
    }
    None
}

proof fn lemma_lookup_found(vars: Seq<(Seq<char>, i32)>, name: Seq<char>, i: int)
    requires
        0 <= i < vars.len(),
        vars[i].0 == name,
        forall|j: int| 0 <= j < i ==> vars[j].0 != name,
    ensures
        lookup(vars, name) == Some(vars[i].1),
    decreases i,
{
    if i > 0 {
        lemma_lookup_found(vars.drop_first(), name, i - 1);
    }
}

proof fn lemma_lookup_missing(vars: Seq<(Seq<char>, i32)>, name: Seq<char>)
    requires
        forall|j: int| 0 <= j < vars.len() ==> vars[j].0 != name,
    ensures
        lookup(vars, name) == None::<i32>,
    decreases vars.len(),
{
    if vars.len() > 0 {
        lemma_lookup_missing(vars.drop_first(), name);
    }
}

proof fn lemma_bind_found(vars: Seq<(Seq<char>, i32)>, name: Seq<char>, value: i32, i: int)
    requires
        0 <= i < vars.len(),
        vars[i].0 == name,
        forall|j: int| 0 <= j < i ==> vars[j].0 != name,
    ensures
        bind(vars, name, value) == vars.update(i, (name, value)),
    decreases i,
{
    if i > 0 {
        lemma_bind_found(vars.drop_first(), name, value, i - 1);
        assert(seq![vars[0]] + vars.drop_first().update(i - 1, (name, value)) =~= vars.update(
            i,
            (name, value),
        ));
    }
}

proof fn lemma_bind_missing(vars: Seq<(Seq<char>, i32)>, name: Seq<char>, value: i32)
    requires
        forall|j: int| 0 <= j < vars.len() ==> vars[j].0 != name,
    ensures
        bind(vars, name, value) == vars.push((name, value)),
    decreases vars.len(),
{
    if vars.len() > 0 {
        lemma_bind_missing(vars.drop_first(), name, value);
        assert(seq![vars[0]] + vars.drop_first().push((name, value)) =~= vars.push(
            (name, value),
        ));
    }
}

/// The value bound to `name`, if any.
pub fn get_variable(vars: &Vec<(String, i32)>, name: &String) -> (r: Option<i32>)
    ensures
        r == lookup(vars_view(vars@), name@),
{
    let found = find(vars, name);
    match found {
        Some(i) => {
            proof {
                lemma_lookup_found(vars_view(vars@), name@, i as int);
            }
            Some(vars[i].1)
        },
        None => {
            proof {
                lemma_lookup_missing(vars_view(vars@), name@);
            }
            None
        },
    }
}

/// Binds `name` to `value`, overwriting an earlier binding of that name.
pub fn bind_variable(vars: &mut Vec<(String, i32)>, name: String, value: i32)
    ensures
        vars_view(final(vars)@) == bind(vars_view(old(vars)@), name@, value),
{
    let found = find(vars, &name);
    match found {
        Some(i) => {
            proof {
                lemma_bind_found(vars_view(vars@), name@, value, i as int);
            }
            vars.set(i, (name, value));
            assert(vars_view(vars@) =~= vars_view(old(vars)@).update(i as int, (name@, value)));
        },
        None => {
            proof {
                lemma_bind_missing(vars_view(vars@), name@, value);
            }
            vars.push((name, value));
            assert(vars_view(vars@) =~= vars_view(old(vars)@).push((name@, value)));
        },
    }
}

} // verus!
