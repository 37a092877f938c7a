//! The names of the declarations: that no two systems carry one name, and
//! which system each dependency names.

use vstd::prelude::*;
use crate::schedule::{
    dangling, declares, dependency, depends, first_dangling, first_name_clash, name_clash, name_of,
    names_distinct, resolved, SystemDecl,
};

verus! {

/// The position of the first system called `name`.
pub(crate) fn find(systems: &Vec<SystemDecl>, name: &String) -> (found: Option<usize>)
    ensures
        match found {
            Some(j) => j < systems.len() && name_of(systems@, j as int) == name@ && forall|i: int|
                0 <= i < j ==> #[trigger] name_of(systems@, i) != name@,
            None => !declares(systems@, name@),
        },
{
    let mut j: usize = 0;
    while j < systems.len()
        invariant
            j <= systems.len(),
            forall|i: int| 0 <= i < j ==> #[trigger] name_of(systems@, i) != name@,
        decreases systems.len() - j,
    {
        if systems[j].name == *name {
            return Some(j);
        }
        j += 1;
    }
    None
}

/// The first two systems that carry one name, if any do.
pub(crate) fn first_clash(systems: &Vec<SystemDecl>) -> (clash: Option<(usize, usize)>)
    ensures
        match clash {
            Some((i, j)) => first_name_clash(systems@, i as int, j as int),
            None => names_distinct(systems@),
        },
{
    let mut j: usize = 0;
    while j < systems.len()
        invariant
            j <= systems.len(),
            forall|a: int, b: int| #[trigger] name_clash(systems@, a, b) ==> j <= b,
        decreases systems.len() - j,
    {
        match find(systems, &systems[j].name) {
            Some(i) => {
                if i < j {
                    assert(name_clash(systems@, i as int, j as int));
                    return Some((i, j));
                }
            },
            None => {
                assert(name_of(systems@, j as int) == systems@[j as int].name@);
            },
        }
        j += 1;
    }
    None
}

/// Whether `row` holds, for each of its places, the position of the system
/// that the dependency of that number of the system at `i` names.
pub(crate) open spec fn row_links(systems: Seq<SystemDecl>, i: int, row: Seq<usize>) -> bool {
    forall|k: int|
        0 <= k < row.len() ==> {
            &&& #[trigger] row[k] < systems.len()
            &&& name_of(systems, row[k] as int) == dependency(systems, i, k)
        }
}

/// Whether `edges` holds, for every dependency, the position of the system
/// it names.
pub(crate) open spec fn links(systems: Seq<SystemDecl>, edges: Seq<Vec<usize>>) -> bool {
    &&& edges.len() == systems.len()
    &&& forall|i: int|
        0 <= i < systems.len() ==> {
            &&& (#[trigger] edges[i])@.len() == systems[i].dependencies@.len()
            &&& row_links(systems, i, edges[i]@)
        }
}

/// For every dependency the position of the system it names, or the
/// first dependency that names none.
pub(crate) fn resolve(systems: &Vec<SystemDecl>) -> (resolution: Result<Vec<Vec<usize>>, (usize, usize)>)
    ensures
        match resolution {
            Ok(edges) => links(systems@, edges@) && resolved(systems@),
            Err((i, k)) => first_dangling(systems@, i as int, k as int),
        },
{
    let mut edges: Vec<Vec<usize>> = Vec::new();
    let mut i: usize = 0;
    while i < systems.len()
        invariant
            i <= systems.len(),
            edges@.len() == i,
            forall|a: int|
                0 <= a < i ==> {
                    &&& (#[trigger] edges@[a])@.len() == systems@[a].dependencies@.len()
                    &&& row_links(systems@, a, edges@[a]@)
                },
            forall|a: int, b: int| #[trigger] dangling(systems@, a, b) ==> i <= a,
        decreases systems.len() - i,
    {
        let mut row: Vec<usize> = Vec::new();
        let mut k: usize = 0;
        while k < systems[i].dependencies.len()
            invariant
                i < systems.len(),
                k <= systems@[i as int].dependencies@.len(),
                row@.len() == k,
                row_links(systems@, i as int, row@),
                forall|a: int, b: int|
                    #[trigger] dangling(systems@, a, b) ==> i < a || (i == a && k <= b),
            decreases systems@[i as int].dependencies@.len() - k,
        {
            let ghost wanted = dependency(systems@, i as int, k as int);
            match find(systems, &systems[i].dependencies[k]) {
                Some(j) => {
                    assert(name_of(systems@, j as int) == wanted);
                    assert(declares(systems@, wanted));
                    let ghost shorter = row@;
                    row.push(j);
                    assert forall|b: int| 0 <= b < row@.len() implies #[trigger] row@[b]
                        < systems@.len() && name_of(systems@, row@[b] as int) == dependency(
                        systems@,
                        i as int,
                        b,
                    ) by {
                        if b < k {
                            assert(row@[b] == shorter[b]);
                        }
                    }
                },
                None => {
                    assert(dangling(systems@, i as int, k as int));
                    return Err((i, k));
                },
            }
            k += 1;
        }
        let ghost shorter = edges@;
        edges.push(row);
        assert forall|a: int| 0 <= a < i + 1 implies (#[trigger] edges@[a])@.len()
            == systems@[a].dependencies@.len() && row_links(systems@, a, edges@[a]@) by {
            if a < i {
                assert(edges@[a] == shorter[a]);
            }
        }
        i += 1;
    }
    Ok(edges)
}

/// With distinct names, the system at `i` depends on exactly the systems
/// that its row of `edges` holds.
pub(crate) proof fn edges_are_dependencies(systems: Seq<SystemDecl>, edges: Seq<Vec<usize>>, i: int)
    requires
        links(systems, edges),
        names_distinct(systems),
        0 <= i < systems.len(),
    ensures
        forall|k: int| 0 <= k < edges[i]@.len() ==> depends(systems, i, #[trigger] edges[i]@[k] as int),
        forall|j: int| #[trigger]
            depends(systems, i, j) ==> exists|k: int|
                0 <= k < edges[i]@.len() && #[trigger] edges[i]@[k] == j,
{
    assert(row_links(systems, i, edges[i]@));
    assert forall|k: int| 0 <= k < edges[i]@.len() implies depends(
        systems,
        i,
        #[trigger] edges[i]@[k] as int,
    ) by {
        assert(dependency(systems, i, k) == name_of(systems, edges[i]@[k] as int));
    }
    assert forall|j: int| #[trigger] depends(systems, i, j) implies exists|k: int|
        0 <= k < edges[i]@.len() && #[trigger] edges[i]@[k] == j by {
        let k = choose|k: int|
            0 <= k < systems[i].dependencies@.len() && #[trigger] dependency(systems, i, k)
                == name_of(systems, j);
        let e = edges[i]@[k] as int;
        assert(name_of(systems, e) == dependency(systems, i, k));
        if e < j {
            assert(name_clash(systems, e, j));
        } else if j < e {
            assert(name_clash(systems, j, e));
        }
        assert(edges[i]@[k] == j);
    }
}

/// Whether `row` holds `j`.
pub(crate) fn holds_edge(row: &Vec<usize>, j: usize) -> (found: bool)
    ensures
        found == exists|k: int| 0 <= k < row@.len() && #[trigger] row@[k] == j,
{
    let mut k: usize = 0;
    while k < row.len()
        invariant
            k <= row@.len(),
            forall|a: int| 0 <= a < k ==> #[trigger] row@[a] != j,
        decreases row@.len() - k,
    {
        if row[k] == j {
            return true;
        }
        k += 1;
    }
    false
}

} // verus!
