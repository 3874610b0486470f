use vstd::prelude::*;

verus! {

/// The indices below `j` other than `i`, ascending.
pub open spec fn indices_below_except(j: int, i: int) -> Seq<usize> {
    Seq::new(
        (if i < j { j - 1 } else { j }) as nat,
        |k: int| (if k < i { k } else { k + 1 }) as usize,
    )
}

/// The bodies that exert a force on body `i`, where `immovable[b]` tells
/// whether body `b` is immovable: every other body, in index order, or none
/// when body `i` is immovable.
pub open spec fn force_sources_of(immovable: Seq<bool>, i: int) -> Seq<usize> {
    if immovable[i] {
        Seq::empty()
    } else {
        indices_below_except(immovable.len() as int, i)
    }
}

/// A movable body is pulled by every other body exactly once and never by
/// itself; an immovable body is pulled by none.
pub proof fn lemma_force_sources_each_other_once(immovable: Seq<bool>, i: int, j: int)
    requires
        immovable.len() <= usize::MAX,
        0 <= i < immovable.len(),
        0 <= j < immovable.len(),
    ensures
        force_sources_of(immovable, i).no_duplicates(),
        force_sources_of(immovable, i).contains(j as usize) <==> (!immovable[i] && j != i),
{
    let s = force_sources_of(immovable, i);
    if !immovable[i] {
        assert(forall|k: int| 0 <= k < s.len() ==> #[trigger] s[k] == (if k < i { k } else { k + 1 }));
        if j != i {
            let k = if j < i { j } else { j - 1 };
            assert(s[k] == j as usize);
        }
        assert forall|a: int, b: int| 0 <= a < s.len() && 0 <= b < s.len() && a != b implies s[a] != s[b] by {}
    }
}

/// The sources of body `i` are exactly the other bodies, ascending: none
/// when body `i` is immovable; otherwise one fewer than the bodies, each an
/// index of a body other than `i`, strictly increasing (so each other body
/// occurs once, and no index outside the bodies occurs).
pub proof fn lemma_force_sources_are_the_other_bodies(immovable: Seq<bool>, i: int)
    requires
        immovable.len() <= usize::MAX,
        0 <= i < immovable.len(),
    ensures
        immovable[i] ==> force_sources_of(immovable, i).len() == 0,
        !immovable[i] ==> force_sources_of(immovable, i).len() == immovable.len() - 1,
        forall|k: int|
            0 <= k < force_sources_of(immovable, i).len() ==> {
                &&& #[trigger] force_sources_of(immovable, i)[k] < immovable.len()
                &&& force_sources_of(immovable, i)[k] != i
            },
        forall|a: int, b: int|
            0 <= a < b < force_sources_of(immovable, i).len() ==> #[trigger] force_sources_of(
                immovable,
                i,
            )[a] < #[trigger] force_sources_of(immovable, i)[b],
{
    let s = force_sources_of(immovable, i);
    if !immovable[i] {
        assert(forall|k: int| 0 <= k < s.len() ==> #[trigger] s[k] == (if k < i { k } else { k + 1 }));
    }
}

/// Which bodies pull on which during one physics tick.
///
/// Entry `i` of the result lists, in index order, the bodies whose
/// gravitational force acts on body `i`: every other body when body `i`
/// moves, none when it is immovable. `immovable[i]` tells whether body `i`
/// is immovable.
pub fn force_sources(immovable: &Vec<bool>) -> (r: Vec<Vec<usize>>)
    ensures
        r@.len() == immovable@.len(),
        forall|i: int| 0 <= i < r@.len() ==> (#[trigger] r@[i])@ == force_sources_of(immovable@, i),
        forall|i: int| 0 <= i < r@.len() ==> (#[trigger] r@[i])@.len() == (if immovable@[i] {
            0
        } else {
            immovable@.len() - 1
        }),
        forall|i: int, k: int|
            0 <= i < r@.len() && 0 <= k < r@[i]@.len() ==> #[trigger] r@[i]@[k] < immovable@.len()
                && r@[i]@[k] != i,
        forall|i: int, a: int, b: int|
            0 <= i < r@.len() && 0 <= a < b < r@[i]@.len() ==> #[trigger] r@[i]@[a]
                < #[trigger] r@[i]@[b],
{
    let n = immovable.len();
    let mut result: Vec<Vec<usize>> = Vec::new();
    let mut i: usize = 0;
    while i < n
        invariant
            n == immovable@.len(),
            i <= n,
            result@.len() == i,
            forall|k: int| 0 <= k < i ==> (#[trigger] result@[k])@ == force_sources_of(immovable@, k),
        decreases n - i,
    {
        let mut from: Vec<usize> = Vec::new();
        if !immovable[i] {
            let mut j: usize = 0;
            while j < n
                invariant
                    n == immovable@.len(),
                    i < n,
                    j <= n,
                    from@ =~= indices_below_except(j as int, i as int),
                decreases n - j,
            {
                if j != i {
                    from.push(j);
                }
                proof {
                    assert(from@ =~= indices_below_except(j + 1, i as int));
                }
                j = j + 1;
            }
        } else {
            assert(from@ =~= Seq::<usize>::empty());
        }
        result.push(from);
        i = i + 1;
    }
    proof {
        assert forall|i: int| 0 <= i < result@.len() implies {
            &&& (#[trigger] result@[i])@.len() == (if immovable@[i] {
                0
            } else {
                immovable@.len() - 1
            })
            &&& forall|k: int|
                0 <= k < result@[i]@.len() ==> #[trigger] result@[i]@[k] < immovable@.len()
                    && result@[i]@[k] != i
            &&& forall|a: int, b: int|
                0 <= a < b < result@[i]@.len() ==> #[trigger] result@[i]@[a]
                    < #[trigger] result@[i]@[b]
        } by {
            lemma_force_sources_are_the_other_bodies(immovable@, i);
        }
    }
    result
}

/// Index of the body closest to a point.
///
/// `distance_keys[i]` orders body `i` by its distance to the point: a smaller
/// key is a shorter distance. The result is `None` when there are no bodies,
/// otherwise the first index whose key is the least.
pub fn closest_index(distance_keys: &Vec<u64>) -> (r: Option<usize>)
    ensures
        r is None <==> distance_keys@.len() == 0,
        r matches Some(i) ==> {
            &&& i < distance_keys@.len()
            &&& forall|j: int| 0 <= j < distance_keys@.len() ==> distance_keys@[i as int] <= #[trigger] distance_keys@[j]
            &&& forall|j: int| 0 <= j < i ==> distance_keys@[i as int] < #[trigger] distance_keys@[j]
        },
{
    let n = distance_keys.len();
    if n == 0 {
        return None;
    }
    let mut best: usize = 0;
    let mut j: usize = 1;
    while j < n
        invariant
            n == distance_keys@.len(),
            best < j <= n,
            forall|k: int| 0 <= k < j ==> distance_keys@[best as int] <= #[trigger] distance_keys@[k],
            forall|k: int| 0 <= k < best ==> distance_keys@[best as int] < #[trigger] distance_keys@[k],
        decreases n - j,
    {
        if distance_keys[best] > distance_keys[j] {
            best = j;
        }
        j = j + 1;
    }
    Some(best)
}

} // verus!
