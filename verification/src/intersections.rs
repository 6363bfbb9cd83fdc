use vstd::prelude::*;

verus! {

use vstd::multiset::Multiset;

/// A record of a ray meeting a shape.
///
/// `t` is the distance along the ray, given as an integer key: callers map
/// their distances onto `i64` so that order and sign are preserved (zero maps
/// to zero). The shading pipeline only ever compares distances, so any such
/// order-preserving key carries all the information it reads.
///
/// `object` is the identity token of the shape that was met. Shapes are told
/// apart by identity, not by their field values: two geometrically equal
/// shapes at different scene positions stay distinguishable.
#[derive(Debug, Clone, Copy, PartialEq, Eq, Structural)]
pub struct Intersection {
    /// Order-preserving key for the distance along the ray.
    pub t: i64,
    /// Identity token of the intersected shape.
    pub object: u128,
}

impl Intersection {
    /// Create a new intersection record from a distance key and the
    /// identity token of the intersected shape.
    pub fn new(t: i64, object: u128) -> (r: Intersection)
        ensures
            r.t == t,
            r.object == object,
    {
        Intersection { t, object }
    }
}

/// The hit among a list of intersections: the record carrying the smallest
/// strictly positive distance, scanned left to right so that the earliest
/// record at that distance is kept. `None` when every distance is zero or
/// behind the ray.
pub open spec fn spec_hit(s: Seq<Intersection>) -> Option<Intersection>
    decreases s.len(),
{
    if s.len() == 0 {
        None
    } else {
        let x = s.last();
        match spec_hit(s.drop_last()) {
            None => if x.t > 0 {
                Some(x)
            } else {
                None
            },
            Some(b) => if x.t > 0 && x.t < b.t {
                Some(x)
            } else {
                Some(b)
            },
        }
    }
}

proof fn lemma_spec_hit_characterization(s: Seq<Intersection>)
    ensures
        spec_hit(s) is None <==> (forall|j: int| 0 <= j < s.len() ==> s[j].t <= 0),
        spec_hit(s) matches Some(i) ==> i.t > 0 && s.contains(i) && (forall|j: int|
            0 <= j < s.len() && s[j].t > 0 ==> i.t <= s[j].t),
        spec_hit(s) matches Some(i) ==> exists|w: int|
            0 <= w < s.len() && s[w] == i && (forall|k: int|
                0 <= k < w ==> !(s[k].t > 0 && s[k].t <= i.t)),
    decreases s.len(),
{
    if s.len() > 0 {
        lemma_spec_hit_characterization(s.drop_last());
        let rest = s.drop_last();
        assert(forall|j: int| 0 <= j < rest.len() ==> rest[j] == s[j]);
        match spec_hit(s) {
            None => {},
            Some(i) => {
                if spec_hit(rest) matches Some(b) && i == b {
                    assert(rest.contains(i));
                    let w = choose|w: int|
                        0 <= w < rest.len() && rest[w] == i && (forall|k: int|
                            0 <= k < w ==> !(rest[k].t > 0 && rest[k].t <= i.t));
                    assert(s[w] == i && (forall|k: int|
                        0 <= k < w ==> !(s[k].t > 0 && s[k].t <= i.t)));
                } else {
                    let w = s.len() - 1;
                    assert(s[w] == i);
                    assert forall|k: int| 0 <= k < w implies !(s[k].t > 0 && s[k].t <= i.t) by {
                        match spec_hit(rest) {
                            Some(b) => {
                                assert(i.t < b.t);
                            },
                            None => {},
                        }
                    }
                }
            },
        }
    }
}

/// In a list sorted by ascending distance, the hit is the first record with
/// a strictly positive distance: sorting the gathered intersections and
/// selecting the hit agree on which intersection is shaded.
pub proof fn lemma_hit_of_sorted_is_first_positive(s: Seq<Intersection>, j: int)
    requires
        sorted_by_t(s),
        0 <= j < s.len(),
        s[j].t > 0,
        forall|k: int| 0 <= k < j ==> s[k].t <= 0,
    ensures
        spec_hit(s) == Some(s[j]),
{
    lemma_spec_hit_characterization(s);
    assert(!(spec_hit(s) is None));
    let i = spec_hit(s)->Some_0;
    let w = choose|w: int|
        0 <= w < s.len() && s[w] == i && (forall|k: int|
            0 <= k < w ==> !(s[k].t > 0 && s[k].t <= i.t));
    assert(i.t <= s[j].t);
    if w < j {
        assert(s[w].t <= 0);
    }
    assert(w >= j);
    assert(s[j].t <= s[w].t);
    if j < w {
        assert(s[j].t > 0 && s[j].t <= i.t);
    }
    assert(w == j);
}

/// Given a set of intersections, returns the one with the lowest strictly
/// positive distance: the intersection at which the ray actually hits an
/// object. When the ray misses everything — every distance is zero or
/// negative — there is no hit and `None` is returned. Among several records
/// sharing the lowest positive distance, the earliest in the list is kept.
pub fn hit(xs: &Vec<Intersection>) -> (r: Option<Intersection>)
    ensures
        r == spec_hit(xs@),
        r is None <==> (forall|j: int| 0 <= j < xs@.len() ==> xs@[j].t <= 0),
        r matches Some(i) ==> i.t > 0 && xs@.contains(i) && (forall|j: int|
            0 <= j < xs@.len() && xs@[j].t > 0 ==> i.t <= xs@[j].t),
{
    let mut result: Option<Intersection> = None;
    let mut k: usize = 0;
    while k < xs.len()
        invariant
            k <= xs.len(),
            result == spec_hit(xs@.take(k as int)),
        decreases xs.len() - k,
    {
        let x = xs[k];
        proof {
            assert(xs@.take(k + 1 as int).drop_last() =~= xs@.take(k as int));
            assert(xs@.take(k + 1 as int).last() == xs@[k as int]);
        }
        match result {
            None => {
                if x.t > 0 {
                    result = Some(x);
                }
            },
            Some(b) => {
                if x.t > 0 && x.t < b.t {
                    result = Some(x);
                }
            },
        }
        k = k + 1;
    }
    proof {
        assert(xs@.take(xs@.len() as int) =~= xs@);
        lemma_spec_hit_characterization(xs@);
    }
    result
}

/// Whether the intersections are ordered by ascending distance. A sorted
/// list of all hits is the unit the shading pipeline works on.
pub open spec fn sorted_by_t(s: Seq<Intersection>) -> bool {
    forall|i: int, j: int| 0 <= i < j < s.len() ==> s[i].t <= s[j].t
}

/// `x` placed into the already-sorted `s`: before every record with a
/// strictly greater distance and after every other, so that records sharing
/// a distance keep their original order.
pub open spec fn sorted_insert(s: Seq<Intersection>, x: Intersection) -> Seq<Intersection>
    decreases s.len(),
{
    if s.len() == 0 {
        seq![x]
    } else if s.last().t <= x.t {
        s.push(x)
    } else {
        sorted_insert(s.drop_last(), x).push(s.last())
    }
}

/// The intersections in ascending order of distance, records of equal
/// distance keeping their original order: each record inserted in turn
/// into the sorted list of those before it.
pub open spec fn sort_spec(s: Seq<Intersection>) -> Seq<Intersection>
    decreases s.len(),
{
    if s.len() == 0 {
        Seq::empty()
    } else {
        sorted_insert(sort_spec(s.drop_last()), s.last())
    }
}

proof fn lemma_sorted_insert_properties(s: Seq<Intersection>, x: Intersection)
    requires
        sorted_by_t(s),
    ensures
        sorted_by_t(sorted_insert(s, x)),
        sorted_insert(s, x).to_multiset() == s.to_multiset().insert(x),
    decreases s.len(),
{
    broadcast use vstd::seq_lib::group_to_multiset_ensures;

    if s.len() == 0 {
        assert(seq![x] =~= Seq::empty().push(x));
        assert(Seq::<Intersection>::empty().to_multiset() == Multiset::<Intersection>::empty());
    } else if s.last().t <= x.t {
        assert(sorted_by_t(s.push(x)));
    } else {
        let rest = s.drop_last();
        assert(forall|j: int| 0 <= j < rest.len() ==> rest[j] == s[j]);
        lemma_sorted_insert_properties(rest, x);
        let inner = sorted_insert(rest, x);
        assert forall|i: int| 0 <= i < inner.len() implies inner[i].t <= s.last().t by {
            assert(inner.to_multiset().contains(inner[i]));
            if inner[i] != x {
                assert(rest.to_multiset().contains(inner[i]));
                let w = choose|w: int| 0 <= w < rest.len() && rest[w] == inner[i];
                assert(s[w].t <= s.last().t);
            }
        }
        assert(sorted_by_t(inner.push(s.last())));
        assert(s =~= rest.push(s.last()));
        assert(inner.push(s.last()).to_multiset() == inner.to_multiset().insert(s.last()));
        assert(rest.to_multiset().insert(x).insert(s.last()) =~= rest.to_multiset().insert(
            s.last(),
        ).insert(x));
    }
}

proof fn lemma_sort_spec_properties(s: Seq<Intersection>)
    ensures
        sorted_by_t(sort_spec(s)),
        sort_spec(s).to_multiset() == s.to_multiset(),
    decreases s.len(),
{
    broadcast use vstd::seq_lib::group_to_multiset_ensures;

    if s.len() > 0 {
        lemma_sort_spec_properties(s.drop_last());
        lemma_sorted_insert_properties(sort_spec(s.drop_last()), s.last());
        assert(s =~= s.drop_last().push(s.last()));
        assert(s.drop_last().push(s.last()).to_multiset() == s.drop_last().to_multiset().insert(
            s.last(),
        ));
    }
}

proof fn lemma_insert_position(s: Seq<Intersection>, x: Intersection, pos: int)
    requires
        sorted_by_t(s),
        0 <= pos <= s.len(),
        forall|j: int| 0 <= j < pos ==> s[j].t <= x.t,
        forall|j: int| pos <= j < s.len() ==> s[j].t > x.t,
    ensures
        sorted_insert(s, x) == s.take(pos) + seq![x] + s.skip(pos),
    decreases s.len(),
{
    if pos == s.len() {
        if s.len() == 0 {
            assert(sorted_insert(s, x) =~= s.take(pos) + seq![x] + s.skip(pos));
        } else {
            assert(s.last().t <= x.t);
            assert(s.push(x) =~= s.take(pos) + seq![x] + s.skip(pos));
        }
    } else {
        assert(s[s.len() - 1].t > x.t);
        let rest = s.drop_last();
        assert(forall|j: int| 0 <= j < rest.len() ==> rest[j] == s[j]);
        lemma_insert_position(rest, x, pos);
        assert(sorted_insert(s, x) == sorted_insert(rest, x).push(s.last()));
        assert((rest.take(pos) + seq![x] + rest.skip(pos)).push(s.last()) =~= s.take(pos)
            + seq![x] + s.skip(pos));
    }
}

/// The intersections sorted by ascending distance. Records of equal
/// distance keep the order they arrived in, so the result is determined
/// by the input alone.
pub fn sort_intersections(xs: &Vec<Intersection>) -> (r: Vec<Intersection>)
    ensures
        r@ == sort_spec(xs@),
        sorted_by_t(r@),
        r@.to_multiset() == xs@.to_multiset(),
{
    let mut out: Vec<Intersection> = Vec::new();
    let mut k: usize = 0;
    while k < xs.len()
        invariant
            k <= xs.len(),
            out@ == sort_spec(xs@.take(k as int)),
        decreases xs.len() - k,
    {
        let x = xs[k];
        proof {
            lemma_sort_spec_properties(xs@.take(k as int));
        }
        let mut pos: usize = 0;
        while pos < out.len() && out[pos].t <= x.t
            invariant
                pos <= out.len(),
                forall|j: int| 0 <= j < pos ==> out@[j].t <= x.t,
            decreases out.len() - pos,
        {
            pos = pos + 1;
        }
        proof {
            assert forall|j: int| pos <= j < out@.len() implies out@[j].t > x.t by {
                assert(out@[pos as int].t <= out@[j].t);
            }
            lemma_insert_position(out@, x, pos as int);
        }
        out.insert(pos, x);
        proof {
            assert(out@ =~= sort_spec(xs@.take(k as int)).take(pos as int) + seq![x] + sort_spec(
                xs@.take(k as int),
            ).skip(pos as int));
            assert(xs@.take(k + 1 as int).drop_last() =~= xs@.take(k as int));
            assert(xs@.take(k + 1 as int).last() == xs@[k as int]);
        }
        k = k + 1;
    }
    proof {
        assert(xs@.take(xs@.len() as int) =~= xs@);
        lemma_sort_spec_properties(xs@);
    }
    out
}

/// Whether a point is occluded, judged from the intersections of the ray
/// cast from the point toward the light and the distance to the light
/// (given as keys on the same scale): the point lies in shadow exactly when
/// the ray hits something strictly closer than the light itself. Anything
/// at or behind the light, or behind the point, casts no shadow on it.
pub fn is_shadowed(xs: &Vec<Intersection>, light_distance: i64) -> (r: bool)
    ensures
        r == (spec_hit(xs@) matches Some(i) && i.t < light_distance),
{
    match hit(xs) {
        Some(i) => i.t < light_distance,
        None => false,
    }
}

/// The medium a refracted ray is leaving or entering at an intersection.
///
/// `Ambient` is the surrounding space outside every shape (refractive index
/// 1, vacuum or air). `Object` names, by identity token, the shape whose
/// material the ray is travelling through; its refractive index is read off
/// that shape. `Undetermined` arises only when the intersection being shaded
/// does not occur in the list it is resolved against, so no transition can
/// be read off.
#[derive(Debug, Clone, Copy, PartialEq, Eq, Structural)]
pub enum Medium {
    Undetermined,
    Ambient,
    Object(u128),
}

/// The tokens of `s` with every occurrence of `o` removed, order kept.
pub open spec fn remove_token_spec(s: Seq<u128>, o: u128) -> Seq<u128>
    decreases s.len(),
{
    if s.len() == 0 {
        Seq::empty()
    } else {
        let rest = remove_token_spec(s.drop_last(), o);
        if s.last() == o {
            rest
        } else {
            rest.push(s.last())
        }
    }
}

/// One step of the containment bookkeeping: meeting shape `o` pops it from
/// the stack of shapes the ray is currently inside when it is present (the
/// ray is exiting), and pushes it when it is not (the ray is entering).
/// Presence is by identity, so equal tokens stand for the same shape.
pub open spec fn toggle_token_spec(s: Seq<u128>, o: u128) -> Seq<u128> {
    if s.contains(o) {
        remove_token_spec(s, o)
    } else {
        s.push(o)
    }
}

proof fn lemma_remove_absent_token(s: Seq<u128>, o: u128)
    requires
        !s.contains(o),
    ensures
        remove_token_spec(s, o) == s,
    decreases s.len(),
{
    if s.len() > 0 {
        let rest = s.drop_last();
        assert(forall|j: int| 0 <= j < rest.len() ==> rest[j] == s[j]);
        assert(!rest.contains(o)) by {
            if rest.contains(o) {
                let w = choose|w: int| 0 <= w < rest.len() && rest[w] == o;
                assert(s[w] == o);
            }
        }
        lemma_remove_absent_token(rest, o);
        assert(s[s.len() - 1] != o);
        assert(rest.push(s.last()) =~= s);
    }
}

/// Entering a shape and exiting it again leaves the containment
/// bookkeeping exactly as it was: a ray that passes straight through a
/// shape it was not already inside ends up in the same medium it started
/// in.
pub proof fn lemma_enter_then_exit(s: Seq<u128>, o: u128)
    requires
        !s.contains(o),
    ensures
        toggle_token_spec(toggle_token_spec(s, o), o) == s,
{
    let entered = s.push(o);
    assert(entered.contains(o)) by {
        assert(entered[entered.len() - 1] == o);
    }
    assert(toggle_token_spec(s, o) == entered);
    assert(entered.drop_last() =~= s);
    assert(remove_token_spec(entered, o) == remove_token_spec(s, o));
    lemma_remove_absent_token(s, o);
}

/// The stack of shapes the ray is inside after the first `n` intersections
/// of the list have been replayed in order.
pub open spec fn containers(s: Seq<Intersection>, n: int) -> Seq<u128>
    decreases n,
{
    if n <= 0 {
        Seq::empty()
    } else {
        toggle_token_spec(containers(s, n - 1), s[n - 1].object)
    }
}

/// The medium the ray is travelling through for a given containment stack:
/// the most recently entered shape, or the ambient space when the stack is
/// empty.
pub open spec fn medium_of(c: Seq<u128>) -> Medium {
    if c.len() == 0 {
        Medium::Ambient
    } else {
        Medium::Object(c.last())
    }
}

/// The position of the first record equal to `x`, or `s.len()` when there
/// is none.
pub open spec fn index_of_first(s: Seq<Intersection>, x: Intersection) -> int
    decreases s.len(),
{
    if s.len() == 0 {
        0
    } else if s[0] == x {
        0
    } else {
        1 + index_of_first(s.drop_first(), x)
    }
}

proof fn lemma_index_of_first_found(s: Seq<Intersection>, x: Intersection, i: int)
    requires
        0 <= i <= s.len(),
        forall|j: int| 0 <= j < i ==> s[j] != x,
        i < s.len() ==> s[i] == x,
    ensures
        i < s.len() ==> index_of_first(s, x) == i,
        i == s.len() ==> index_of_first(s, x) == s.len(),
    decreases s.len(),
{
    if s.len() > 0 {
        if i == 0 {
            if i < s.len() {
                assert(s[0] == x);
            }
        } else {
            assert(s[0] != x);
            let rest = s.drop_first();
            assert(forall|j: int| 0 <= j < rest.len() ==> rest[j] == s[j + 1]);
            lemma_index_of_first_found(rest, x, i - 1);
        }
    }
}

/// The tokens of `c` with every occurrence of `o` removed.
fn remove_token(c: &Vec<u128>, o: u128) -> (r: Vec<u128>)
    ensures
        r@ == remove_token_spec(c@, o),
{
    let mut out: Vec<u128> = Vec::new();
    let mut k: usize = 0;
    while k < c.len()
        invariant
            k <= c.len(),
            out@ == remove_token_spec(c@.take(k as int), o),
        decreases c.len() - k,
    {
        proof {
            assert(c@.take(k + 1 as int).drop_last() =~= c@.take(k as int));
            assert(c@.take(k + 1 as int).last() == c@[k as int]);
        }
        if c[k] != o {
            out.push(c[k]);
        }
        k = k + 1;
    }
    proof {
        assert(c@.take(c@.len() as int) =~= c@);
    }
    out
}

/// Whether the token `o` occurs in `c`.
fn contains_token(c: &Vec<u128>, o: u128) -> (r: bool)
    ensures
        r == c@.contains(o),
{
    let mut k: usize = 0;
    while k < c.len()
        invariant
            k <= c.len(),
            forall|j: int| 0 <= j < k ==> c@[j] != o,
        decreases c.len() - k,
    {
        if c[k] == o {
            return true;
        }
        k = k + 1;
    }
    false
}

/// Applies one step of the containment bookkeeping to the stack `c`.
fn toggle_token(c: &mut Vec<u128>, o: u128)
    ensures
        final(c)@ == toggle_token_spec(old(c)@, o),
{
    if contains_token(c, o) {
        let reduced = remove_token(c, o);
        *c = reduced;
    } else {
        c.push(o);
    }
}

/// The medium for the containment stack `c`.
fn current_medium(c: &Vec<u128>) -> (r: Medium)
    ensures
        r == medium_of(c@),
{
    if c.len() == 0 {
        Medium::Ambient
    } else {
        Medium::Object(c[c.len() - 1])
    }
}

/// Calculates the media `n1` and `n2` either side of the intersection `x`
/// within the ordered list `xs`: `n1` is the medium the ray is leaving and
/// `n2` the medium it is entering. The list is replayed in order while a
/// stack of the shapes the ray is currently inside is maintained — entering
/// a shape pushes its token, meeting it again pops it (by identity). At the
/// first record equal to `x`, `n1` is read off the stack before that
/// record's own shape is toggled and `n2` after. When `x` does not occur in
/// `xs` at all, both media are undetermined.
pub fn calculate_n1_n2(xs: &Vec<Intersection>, x: &Intersection) -> (r: (Medium, Medium))
    ensures
        index_of_first(xs@, *x) == xs@.len() ==> r == (
            Medium::Undetermined,
            Medium::Undetermined,
        ),
        index_of_first(xs@, *x) < xs@.len() ==> r.0 == medium_of(
            containers(xs@, index_of_first(xs@, *x)),
        ) && r.1 == medium_of(
            toggle_token_spec(containers(xs@, index_of_first(xs@, *x)), x.object),
        ),
{
    let mut stack: Vec<u128> = Vec::new();
    let mut k: usize = 0;
    while k < xs.len()
        invariant
            k <= xs.len(),
            stack@ == containers(xs@, k as int),
            forall|j: int| 0 <= j < k ==> xs@[j] != *x,
        decreases xs.len() - k,
    {
        if xs[k] == *x {
            proof {
                lemma_index_of_first_found(xs@, *x, k as int);
            }
            let n1 = current_medium(&stack);
            toggle_token(&mut stack, x.object);
            let n2 = current_medium(&stack);
            return (n1, n2);
        }
        toggle_token(&mut stack, xs[k].object);
        k = k + 1;
    }
    proof {
        lemma_index_of_first_found(xs@, *x, xs@.len() as int);
    }
    (Medium::Undetermined, Medium::Undetermined)
}

} // verus!
