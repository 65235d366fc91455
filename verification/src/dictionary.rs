//! The content dictionary as a mathematical object: ordered names, first
//! occurrence as id, registration, and unification of two dictionaries.

use vstd::prelude::*;

verus! {

/// Index of the first occurrence of `name` in the ordered dictionary
/// `names`, if any. The id of a content name is exactly this index.
pub open spec fn name_index(names: Seq<Seq<char>>, name: Seq<char>) -> Option<int>
    decreases names.len(),
{
    if names.len() == 0 {
        None
    } else if names[0] == name {
        Some(0)
    } else {
        match name_index(names.subrange(1, names.len() as int), name) {
            Some(i) => Some(i + 1),
            None => None,
        }
    }
}

/// No two dictionary entries carry the same name.
pub open spec fn names_unique(names: Seq<Seq<char>>) -> bool {
    forall|i: int, j: int| 0 <= i < j < names.len() ==> names[i] != names[j]
}

/// Registering a name: a no-op when the name is already present, an append
/// otherwise.
pub open spec fn spec_register(names: Seq<Seq<char>>, name: Seq<char>) -> Seq<Seq<char>> {
    if name_index(names, name) is Some {
        names
    } else {
        names.push(name)
    }
}

/// The id a name has right after being registered.
pub open spec fn spec_registered_id(names: Seq<Seq<char>>, name: Seq<char>) -> int {
    match name_index(names, name) {
        Some(i) => i,
        None => names.len() as int,
    }
}

/// Unifying a dictionary with a list of names: each name of `b` is
/// registered into `a` in turn, so the novel ones are appended in order and
/// nothing of `a` is removed or reordered.
pub open spec fn spec_unify(a: Seq<Seq<char>>, b: Seq<Seq<char>>) -> Seq<Seq<char>>
    decreases b.len(),
{
    if b.len() == 0 {
        a
    } else {
        spec_unify(spec_register(a, b[0]), b.subrange(1, b.len() as int))
    }
}

/// Unification only appends: the original dictionary stays a prefix, and
/// uniqueness is preserved.
pub proof fn lemma_unify_grows(a: Seq<Seq<char>>, b: Seq<Seq<char>>)
    ensures
        spec_unify(a, b).len() >= a.len(),
        forall|j: int| 0 <= j < a.len() ==> spec_unify(a, b)[j] == a[j],
        names_unique(a) ==> names_unique(spec_unify(a, b)),
    decreases b.len(),
{
    if b.len() > 0 {
        lemma_register_props(a, b[0]);
        lemma_unify_grows(spec_register(a, b[0]), b.subrange(1, b.len() as int));
        assert forall|j: int| 0 <= j < a.len() implies spec_unify(a, b)[j] == a[j] by {
            assert(spec_register(a, b[0])[j] == a[j]);
        }
    }
}

/// How many names of `b`, processed left to right, are novel to the
/// dictionary at the moment they are registered.
pub open spec fn spec_novel_count(a: Seq<Seq<char>>, b: Seq<Seq<char>>) -> int
    decreases b.len(),
{
    if b.len() == 0 {
        0
    } else {
        (if name_index(a, b[0]) is None {
            1int
        } else {
            0int
        }) + spec_novel_count(spec_register(a, b[0]), b.subrange(1, b.len() as int))
    }
}

/// Unification grows the dictionary by exactly the number of novel names.
pub proof fn lemma_unify_novel_count(a: Seq<Seq<char>>, b: Seq<Seq<char>>)
    ensures
        spec_unify(a, b).len() == a.len() + spec_novel_count(a, b),
    decreases b.len(),
{
    if b.len() > 0 {
        lemma_unify_novel_count(spec_register(a, b[0]), b.subrange(1, b.len() as int));
    }
}

/// Every name of `b` is present in the unified dictionary.
pub proof fn lemma_unify_contains(a: Seq<Seq<char>>, b: Seq<Seq<char>>)
    ensures
        forall|i: int| 0 <= i < b.len() ==> name_index(spec_unify(a, b), #[trigger] b[i]) is Some,
    decreases b.len(),
{
    if b.len() > 0 {
        let a1 = spec_register(a, b[0]);
        let rest = b.subrange(1, b.len() as int);
        lemma_unify_contains(a1, rest);
        lemma_register_props(a, b[0]);
        lemma_unify_grows(a1, rest);
        assert forall|i: int| 0 <= i < b.len() implies name_index(
            spec_unify(a, b),
            #[trigger] b[i],
        ) is Some by {
            if i == 0 {
                lemma_name_index_prefix(a1, spec_unify(a1, rest), b[0]);
            } else {
                assert(rest[i - 1] == b[i]);
            }
        }
    }
}

/// Unifying with names that are all already present changes nothing.
pub proof fn lemma_unify_no_novel(a: Seq<Seq<char>>, b: Seq<Seq<char>>)
    requires
        forall|i: int| 0 <= i < b.len() ==> name_index(a, #[trigger] b[i]) is Some,
    ensures
        spec_unify(a, b) == a,
    decreases b.len(),
{
    if b.len() > 0 {
        assert(spec_register(a, b[0]) == a);
        let rest = b.subrange(1, b.len() as int);
        assert(forall|i: int| 0 <= i < rest.len() ==> rest[i] == b[i + 1]);
        lemma_unify_no_novel(a, rest);
    }
}

/// A name present in a prefix keeps exactly its id in any extension.
pub proof fn lemma_name_index_prefix(p: Seq<Seq<char>>, full: Seq<Seq<char>>, name: Seq<char>)
    requires
        p.len() <= full.len(),
        forall|j: int| 0 <= j < p.len() ==> full[j] == p[j],
        name_index(p, name) is Some,
    ensures
        name_index(full, name) == name_index(p, name),
{
    lemma_name_index_props(p, name);
    lemma_name_index_props(full, name);
    match name_index(p, name) {
        Some(i) => {
            match name_index(full, name) {
                Some(i2) => {
                    if i2 < i {
                        assert(p[i2] == name);
                        assert(false);
                    } else if i2 > i {
                        assert(full[i] != name);
                        assert(false);
                    }
                },
                None => {
                    assert(full[i] != name);
                    assert(false);
                },
            }
        },
        None => {
        },
    }
}

/// What `name_index` returns: the first position holding `name`, or `None`
/// when no position holds it.
pub proof fn lemma_name_index_props(names: Seq<Seq<char>>, name: Seq<char>)
    ensures
        match name_index(names, name) {
            Some(i) => 0 <= i < names.len() && names[i] == name && (forall|j: int|
                0 <= j < i ==> names[j] != name),
            None => forall|j: int| 0 <= j < names.len() ==> names[j] != name,
        },
    decreases names.len(),
{
    if names.len() > 0 && names[0] != name {
        let rest = names.subrange(1, names.len() as int);
        lemma_name_index_props(rest, name);
        assert(forall|j: int| 1 <= j < names.len() ==> names[j] == rest[j - 1]);
    }
}

/// Appending an entry never disturbs the id of a present name; an absent
/// name stays absent unless the appended entry is the name itself, which
/// then gets the next id.
pub proof fn lemma_name_index_push(names: Seq<Seq<char>>, name: Seq<char>, appended: Seq<char>)
    ensures
        match name_index(names, name) {
            Some(i) => name_index(names.push(appended), name) == Some(i),
            None => name_index(names.push(appended), name) == if appended == name {
                Some(names.len() as int)
            } else {
                None::<int>
            },
        },
    decreases names.len(),
{
    if names.len() == 0 {
        assert(names.push(appended)[0] == appended);
        assert(names.push(appended).subrange(1, 1) =~= Seq::<Seq<char>>::empty());
        assert(name_index(Seq::<Seq<char>>::empty(), name) is None);
    } else {
        let p = names.push(appended);
        let rest = names.subrange(1, names.len() as int);
        assert(p[0] == names[0]);
        assert(p.subrange(1, p.len() as int) =~= rest.push(appended));
        lemma_name_index_push(rest, name, appended);
        if names[0] != name {
            assert(name_index(p, name) == match name_index(rest.push(appended), name) {
                Some(i) => Some(i + 1),
                None => None::<int>,
            });
        }
    }
}

/// A name just registered is present, at `spec_registered_id`, and the ids
/// of all other present names are untouched.
pub proof fn lemma_register_props(names: Seq<Seq<char>>, name: Seq<char>)
    ensures
        name_index(spec_register(names, name), name) == Some(spec_registered_id(names, name)),
        forall|other: Seq<char>|
            other != name ==> #[trigger] name_index(spec_register(names, name), other)
                == name_index(names, other),
        names_unique(names) ==> names_unique(spec_register(names, name)),
{
    lemma_name_index_props(names, name);
    if name_index(names, name) is None {
        lemma_name_index_push(names, name, name);
        assert forall|other: Seq<char>| other != name implies #[trigger] name_index(
            names.push(name),
            other,
        ) == name_index(names, other) by {
            lemma_name_index_push(names, other, name);
        }
        if names_unique(names) {
            let r = names.push(name);
            assert forall|i: int, j: int| 0 <= i < j < r.len() implies r[i] != r[j] by {
                if j == names.len() {
                    assert(names[i] != name);
                }
            }
        }
    }
}

} // verus!
