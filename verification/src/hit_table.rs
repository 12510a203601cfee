use crate::ray::Ray;
use cgmath::Vector3;
use std::ops::Range;
use vstd::prelude::*;

verus! {

/// Where a ray met a surface.
#[derive(Debug, PartialEq)]
#[verifier::reject_recursive_types(T)]
pub struct HitRecord<T, M> {
    /// The ray's parameter at the meeting point.
    pub t: T,
    /// The meeting point.
    pub p: Vector3<T>,
    /// The surface's outward unit normal there.
    pub normal: Vector3<T>,
    /// The material of the surface.
    pub material: M,
}

impl<T: Copy, M> HitRecord<T, M> {
    /// The record of a hit at the parameter `t`.
    pub fn new(t: T, p: Vector3<T>, normal: Vector3<T>, material: M) -> (rec: Self)
        ensures
            rec.t == t,
            rec.p == p,
            rec.normal == normal,
            rec.material == material,
    {
        Self { t, p, normal, material }
    }

    /// The ray's parameter at the meeting point.
    pub fn get_t(&self) -> (t: T)
        ensures
            t == self.t,
    {
        self.t
    }

    /// Moves the hit to the parameter `t`.
    pub fn set_t(&mut self, t: T)
        ensures
            final(self).t == t,
            final(self).p == old(self).p,
            final(self).normal == old(self).normal,
            final(self).material == old(self).material,
    {
        self.t = t;
    }

    /// The meeting point.
    pub fn get_p(&self) -> (p: &Vector3<T>)
        ensures
            *p == self.p,
    {
        &self.p
    }

    /// Moves the meeting point to `p`.
    pub fn set_p(&mut self, p: Vector3<T>)
        ensures
            final(self).t == old(self).t,
            final(self).p == p,
            final(self).normal == old(self).normal,
            final(self).material == old(self).material,
    {
        self.p = p;
    }

    /// The surface's normal at the meeting point.
    pub fn get_normal(&self) -> (normal: &Vector3<T>)
        ensures
            *normal == self.normal,
    {
        &self.normal
    }

    /// Takes `normal` for the surface's normal.
    pub fn set_normal(&mut self, normal: Vector3<T>)
        ensures
            final(self).t == old(self).t,
            final(self).p == old(self).p,
            final(self).normal == normal,
            final(self).material == old(self).material,
    {
        self.normal = normal;
    }

    /// The material of the surface.
    pub fn get_material(&self) -> (material: &M)
        ensures
            *material == self.material,
    {
        &self.material
    }
}

/// Something a ray can meet.
///
/// `may_hit` is the implementor's own account of what `hit` can answer: all
/// that is asked of `hit` is that its answer is one of them. What a scene
/// needs of its objects beyond that is [`honours_range`], which the law
/// [`lemma_hit_is_nearest`] takes as a hypothesis.
pub trait HitTable<T, M> {
    /// Whether `out` is an answer that `hit` can give for the ray `r` and the
    /// parameters between `start` and `end`. An implementor that does not say
    /// is taken to be able to answer anything.
    open spec fn may_hit(
        &self,
        r: &Ray<T>,
        start: T,
        end: T,
        out: Option<HitRecord<T, M>>,
    ) -> bool {
        true
    }

    /// Where `r` meets this object at a parameter inside `t`, if anywhere.
    fn hit(&self, r: &Ray<T>, t: Range<T>) -> (out: Option<HitRecord<T, M>>)
        ensures
            self.may_hit(r, t.start, t.end, out),
    ;
}

/// The parameter beyond which a search that has found `found` no longer
/// looks: that of the hit, or `end` while there is none.
pub open spec fn bound_of<T, M>(found: Option<HitRecord<T, M>>, end: T) -> T {
    match found {
        Some(h) => h.t,
        None => end,
    }
}

/// One step of a search: `object`, asked about the parameters between
/// `start` and what `before` leaves, can give `answer`, and the search then
/// holds `found`: the answer if it is a hit, else what it held before.
pub open spec fn steps<T, M, H: HitTable<T, M>>(
    object: &H,
    r: &Ray<T>,
    start: T,
    end: T,
    before: Option<HitRecord<T, M>>,
    answer: Option<HitRecord<T, M>>,
    found: Option<HitRecord<T, M>>,
) -> bool {
    &&& object.may_hit(r, start, bound_of(before, end), answer)
    &&& found == if answer is Some {
        answer
    } else {
        before
    }
}

/// Whether a search that asks the first `asked` of `objects` one after
/// another, each about the parameters between `start` and what has been found
/// so far, can then hold `found`.
pub open spec fn reached<T, M, H: HitTable<T, M>>(
    objects: Seq<H>,
    asked: nat,
    r: &Ray<T>,
    start: T,
    end: T,
    found: Option<HitRecord<T, M>>,
) -> bool
    decreases asked,
{
    if asked == 0 {
        found is None
    } else {
        exists|before: Option<HitRecord<T, M>>, answer: Option<HitRecord<T, M>>|
            reached(objects, (asked - 1) as nat, r, start, end, before) && #[trigger] steps(
                &objects[asked - 1],
                r,
                start,
                end,
                before,
                answer,
                found,
            )
    }
}

/// A scene: the objects a ray is tried against, in the order they were added.
pub struct HitTableList<H> {
    list: Vec<H>,
}

impl<H> HitTableList<H> {
    /// The objects of the scene, first added first.
    pub closed spec fn objects(&self) -> Seq<H> {
        self.list@
    }

    /// The empty scene.
    pub fn new() -> (scene: Self)
        ensures
            scene.objects() == Seq::<H>::empty(),
    {
        HitTableList { list: Vec::new() }
    }

    /// Adds `ht` behind the objects already there.
    pub fn add(&mut self, ht: H)
        ensures
            final(self).objects() == old(self).objects().push(ht),
    {
        self.list.push(ht)
    }
}

impl<T: Copy, M, H: HitTable<T, M>> HitTable<T, M> for HitTableList<H> {
    /// A scene can answer what a search through all its objects can end
    /// with.
    open spec fn may_hit(
        &self,
        r: &Ray<T>,
        start: T,
        end: T,
        out: Option<HitRecord<T, M>>,
    ) -> bool {
        reached(self.objects(), self.objects().len(), r, start, end, out)
    }

    /// Asks every object in turn, each only about what lies before the
    /// nearest hit so far, and returns the last hit that came back.
    fn hit(&self, r: &Ray<T>, t: Range<T>) -> (out: Option<HitRecord<T, M>>) {
        let mut closest_so_far = t.end;
        let mut hit: Option<HitRecord<T, M>> = None;
        let mut i: usize = 0;
        while i < self.list.len()
            invariant
                i <= self.list.len(),
                closest_so_far == bound_of(hit, t.end),
                reached(self.list@, i as nat, r, t.start, t.end, hit),
            decreases self.list.len() - i,
        {
            let ghost before = hit;
            let answer = self.list[i].hit(r, t.start..closest_so_far);
            let ghost given = answer;
            if let Some(hc) = answer {
                closest_so_far = hc.t;
                hit = Some(hc);
            }
            proof {
                assert(steps(&self.list@[(i + 1) - 1], r, t.start, t.end, before, given, hit));
                assert(reached(self.list@, ((i + 1) - 1) as nat, r, t.start, t.end, before));
                assert(reached(self.list@, (i + 1) as nat, r, t.start, t.end, hit));
            }
            i += 1;
        }
        hit
    }
}

/// Whether `before` is a strict order: nothing comes before itself, and what
/// comes before something that comes before a third comes before the third.
pub open spec fn strict_order<T>(before: spec_fn(T, T) -> bool) -> bool {
    &&& forall|a: T| !#[trigger] before(a, a)
    &&& forall|a: T, b: T, c: T| #[trigger] before(a, b) && #[trigger] before(b, c) ==> before(a, c)
}

/// `a` is `b` or comes before it.
pub open spec fn not_after<T>(before: spec_fn(T, T) -> bool, a: T, b: T) -> bool {
    a == b || before(a, b)
}

/// What a scene needs of an object, for the order `before` of a ray's
/// parameters:
/// - a hit lies strictly inside the range that was asked about;
/// - an answer is final: about a range that ends at or before its hit, or, if
///   it found nothing, at or before the end of the range it was asked about,
///   the object can only answer that there is nothing.
pub open spec fn honours_range<T, M, H: HitTable<T, M>>(
    object: &H,
    before: spec_fn(T, T) -> bool,
) -> bool {
    &&& forall|r: &Ray<T>, start: T, end: T, h: HitRecord<T, M>| #[trigger]
        object.may_hit(r, start, end, Some(h)) ==> before(start, h.t) && before(h.t, end)
    &&& forall|
        r: &Ray<T>,
        start: T,
        end: T,
        answer: Option<HitRecord<T, M>>,
        cut: T,
        h: HitRecord<T, M>,
    |
        #![trigger object.may_hit(r, start, end, answer), object.may_hit(r, start, cut, Some(h))]
        object.may_hit(r, start, end, answer) && not_after(before, cut, bound_of(answer, end))
            ==> !object.may_hit(r, start, cut, Some(h))
}

/// Whether `object` can give an answer that rules out any hit of it before
/// `limit`.
pub open spec fn settled<T, M, H: HitTable<T, M>>(
    object: &H,
    before: spec_fn(T, T) -> bool,
    r: &Ray<T>,
    start: T,
    limit: T,
) -> bool {
    exists|end: T, answer: Option<HitRecord<T, M>>| #[trigger]
        object.may_hit(r, start, end, answer) && not_after(before, limit, bound_of(answer, end))
}

/// Whether `found` is what one of the first `asked` of `objects` can answer
/// about a range that ends at or before `end`.
pub open spec fn answered<T, M, H: HitTable<T, M>>(
    objects: Seq<H>,
    asked: nat,
    before: spec_fn(T, T) -> bool,
    r: &Ray<T>,
    start: T,
    end: T,
    found: Option<HitRecord<T, M>>,
) -> bool {
    exists|index: int, stop: T|
        0 <= index < asked && not_after(before, stop, end) && #[trigger] objects[index].may_hit(
            r,
            start,
            stop,
            found,
        )
}

proof fn lemma_search_history<T, M, H: HitTable<T, M>>(
    objects: Seq<H>,
    asked: nat,
    before: spec_fn(T, T) -> bool,
    r: &Ray<T>,
    start: T,
    end: T,
    found: Option<HitRecord<T, M>>,
)
    requires
        strict_order(before),
        asked <= objects.len(),
        forall|i: int| 0 <= i < asked ==> honours_range(#[trigger] &objects[i], before),
        reached(objects, asked, r, start, end, found),
    ensures
        not_after(before, bound_of(found, end), end),
        found matches Some(f) ==> before(start, f.t) && before(f.t, end) && answered(
            objects,
            asked,
            before,
            r,
            start,
            end,
            found,
        ),
        forall|i: int|
            0 <= i < asked ==> settled(#[trigger] &objects[i], before, r, start, bound_of(found, end)),
    decreases asked,
{
    if asked > 0 {
        let last = asked - 1;
        let (earlier, answer) = choose|
            earlier: Option<HitRecord<T, M>>,
            answer: Option<HitRecord<T, M>>,
        |
            reached(objects, (asked - 1) as nat, r, start, end, earlier) && #[trigger] steps(
                &objects[asked - 1],
                r,
                start,
                end,
                earlier,
                answer,
                found,
            );
        lemma_search_history(objects, (asked - 1) as nat, before, r, start, end, earlier);
        let was = bound_of(earlier, end);
        let now = bound_of(found, end);
        assert(honours_range(&objects[last], before));
        assert(objects[last].may_hit(r, start, was, answer));
        assert(not_after(before, now, was) && not_after(before, now, bound_of(answer, was))) by {
            if let Some(g) = answer {
                assert(objects[last].may_hit(r, start, was, Some(g)));
                assert(before(g.t, was));
            }
        }
        assert(settled(&objects[last], before, r, start, now));
        assert forall|i: int| 0 <= i < asked implies settled(
            #[trigger] &objects[i],
            before,
            r,
            start,
            now,
        ) by {
            if i < last {
                assert(settled(&objects[i], before, r, start, was));
                let (e, a) = choose|e: T, a: Option<HitRecord<T, M>>| #[trigger]
                    objects[i].may_hit(r, start, e, a) && not_after(
                        before,
                        was,
                        bound_of(a, e),
                    );
                assert(not_after(before, now, bound_of(a, e)));
            }
        }
        if let Some(f) = found {
            if answer is Some {
                assert(not_after(before, was, end) && objects[last].may_hit(r, start, was, found));
                assert(answered(objects, asked, before, r, start, end, found));
            } else {
                assert(answered(objects, last as nat, before, r, start, end, found));
                let (i, e) = choose|i: int, e: T|
                    0 <= i < last && not_after(before, e, end) && #[trigger] objects[i].may_hit(
                        r,
                        start,
                        e,
                        found,
                    );
                assert(0 <= i < asked && not_after(before, e, end) && objects[i].may_hit(
                    r,
                    start,
                    e,
                    found,
                ));
            }
        }
    }
}

/// The scene returns the nearest hit, in whatever order its objects were
/// added: if every object honours the range it is asked about, then no object
/// can be hit before what the search returns, nor anywhere between `start`
/// and `end` if it returns nothing; and a hit that it returns is an answer of
/// one of the objects about a range inside the one that was asked about,
/// and lies strictly between `start` and `end`.
pub proof fn lemma_hit_is_nearest<T: Copy, M, H: HitTable<T, M>>(
    scene: &HitTableList<H>,
    before: spec_fn(T, T) -> bool,
    r: &Ray<T>,
    start: T,
    end: T,
    found: Option<HitRecord<T, M>>,
)
    requires
        strict_order(before),
        forall|i: int|
            0 <= i < scene.objects().len() ==> honours_range(#[trigger] &scene.objects()[i], before),
        scene.may_hit(r, start, end, found),
    ensures
        forall|i: int, h: HitRecord<T, M>|
            0 <= i < scene.objects().len() ==> !#[trigger] scene.objects()[i].may_hit(
                r,
                start,
                bound_of(found, end),
                Some(h),
            ),
        found matches Some(f) ==> before(start, f.t) && before(f.t, end) && answered(
            scene.objects(),
            scene.objects().len(),
            before,
            r,
            start,
            end,
            found,
        ),
{
    let objects = scene.objects();
    let limit = bound_of(found, end);
    lemma_search_history(objects, objects.len(), before, r, start, end, found);
    assert forall|i: int, h: HitRecord<T, M>| 0 <= i < objects.len() implies !#[trigger] objects[i].may_hit(
        r,
        start,
        limit,
        Some(h),
    ) by {
        assert(settled(&objects[i], before, r, start, limit));
        let (e, a) = choose|e: T, a: Option<HitRecord<T, M>>| #[trigger]
            objects[i].may_hit(r, start, e, a) && not_after(before, limit, bound_of(a, e));
        assert(honours_range(&objects[i], before));
        if objects[i].may_hit(r, start, limit, Some(h)) {
            assert(!objects[i].may_hit(r, start, limit, Some(h)));
        }
    }
}

/// A scene of objects that honour the range honours it too, so scenes can
/// be the objects of a scene.
pub proof fn lemma_scene_honours_range<T: Copy, M, H: HitTable<T, M>>(
    scene: &HitTableList<H>,
    before: spec_fn(T, T) -> bool,
)
    requires
        strict_order(before),
        forall|i: int|
            0 <= i < scene.objects().len() ==> honours_range(#[trigger] &scene.objects()[i], before),
    ensures
        honours_range(scene, before),
{
    let objects = scene.objects();
    assert forall|r: &Ray<T>, start: T, end: T, h: HitRecord<T, M>| #[trigger]
        scene.may_hit(r, start, end, Some(h)) implies before(start, h.t) && before(h.t, end) by {
        lemma_hit_is_nearest(scene, before, r, start, end, Some(h));
    }
    assert forall|
        r: &Ray<T>,
        start: T,
        end: T,
        answer: Option<HitRecord<T, M>>,
        cut: T,
        h: HitRecord<T, M>,
    |
        #![trigger scene.may_hit(r, start, end, answer), scene.may_hit(r, start, cut, Some(h))]
        scene.may_hit(r, start, end, answer) && not_after(
            before,
            cut,
            bound_of(answer, end),
        ) implies !scene.may_hit(r, start, cut, Some(h)) by {
        if scene.may_hit(r, start, cut, Some(h)) {
            let limit = bound_of(answer, end);
            lemma_search_history(objects, objects.len(), before, r, start, end, answer);
            lemma_search_history(objects, objects.len(), before, r, start, cut, Some(h));
            let (i, stop) = choose|i: int, stop: T|
                0 <= i < objects.len() && not_after(before, stop, cut)
                    && #[trigger] objects[i].may_hit(r, start, stop, Some(h));
            assert(settled(&objects[i], before, r, start, limit));
            let (e, a) = choose|e: T, a: Option<HitRecord<T, M>>| #[trigger]
                objects[i].may_hit(r, start, e, a) && not_after(before, limit, bound_of(a, e));
            assert(honours_range(&objects[i], before));
            assert(not_after(before, stop, bound_of(a, e)));
            assert(!objects[i].may_hit(r, start, stop, Some(h)));
        }
    }
}

/// Whether what `object` hits does not depend on where the range ends: a hit
/// that it can answer about one range it can answer about every range from
/// the same `start` that ends behind the hit.
pub open spec fn keeps_hits<T, M, H: HitTable<T, M>>(
    object: &H,
    before: spec_fn(T, T) -> bool,
) -> bool {
    forall|r: &Ray<T>, start: T, end: T, h: HitRecord<T, M>, cut: T|
        #![trigger object.may_hit(r, start, end, Some(h)), object.may_hit(r, start, cut, Some(h))]
        object.may_hit(r, start, end, Some(h)) && before(h.t, cut) ==> object.may_hit(
            r,
            start,
            cut,
            Some(h),
        )
}

/// No object of a scene can be hit before what a search through the scene
/// has found, whatever range the object is asked about.
proof fn lemma_nothing_nearer<T: Copy, M, H: HitTable<T, M>>(
    scene: &HitTableList<H>,
    before: spec_fn(T, T) -> bool,
    r: &Ray<T>,
    start: T,
    end: T,
    found: Option<HitRecord<T, M>>,
    index: int,
    stop: T,
    h: HitRecord<T, M>,
)
    requires
        strict_order(before),
        forall|i: int|
            0 <= i < scene.objects().len() ==> honours_range(#[trigger] &scene.objects()[i], before),
        scene.may_hit(r, start, end, found),
        0 <= index < scene.objects().len(),
        keeps_hits(&scene.objects()[index], before),
        scene.objects()[index].may_hit(r, start, stop, Some(h)),
    ensures
        !before(h.t, bound_of(found, end)),
{
    lemma_hit_is_nearest(scene, before, r, start, end, found);
    if before(h.t, bound_of(found, end)) {
        assert(scene.objects()[index].may_hit(r, start, bound_of(found, end), Some(h)));
    }
}

/// Of two sequences that hold the same items, whatever one holds the other
/// holds too.
proof fn lemma_held_by_both<A>(one: Seq<A>, other: Seq<A>, item: A)
    requires
        one.to_multiset() == other.to_multiset(),
        other.contains(item),
    ensures
        one.contains(item),
{
    one.to_multiset_ensures();
    other.to_multiset_ensures();
    assert(other.to_multiset().count(item) > 0);
    assert(one.to_multiset().count(item) > 0);
}

/// The order in which the objects were added does not change how near the
/// hit is that a scene returns: two scenes of the same objects, each of
/// which honours the range and keeps its hits, either both return nothing or
/// return hits neither of which comes before the other.
pub proof fn lemma_order_of_objects_is_immaterial<T: Copy, M, H: HitTable<T, M>>(
    one: &HitTableList<H>,
    other: &HitTableList<H>,
    before: spec_fn(T, T) -> bool,
    r: &Ray<T>,
    start: T,
    end: T,
    found_one: Option<HitRecord<T, M>>,
    found_other: Option<HitRecord<T, M>>,
)
    requires
        strict_order(before),
        one.objects().to_multiset() == other.objects().to_multiset(),
        forall|i: int|
            0 <= i < one.objects().len() ==> honours_range(#[trigger] &one.objects()[i], before)
                && keeps_hits(&one.objects()[i], before),
        one.may_hit(r, start, end, found_one),
        other.may_hit(r, start, end, found_other),
    ensures
        found_one is None <==> found_other is None,
        found_one matches Some(a) ==> (found_other matches Some(b) ==> !before(a.t, b.t)
            && !before(b.t, a.t)),
{
    let ones = one.objects();
    let others = other.objects();
    assert forall|i: int| 0 <= i < others.len() implies honours_range(
        #[trigger] &others[i],
        before,
    ) && keeps_hits(&others[i], before) by {
        assert(others.contains(others[i]));
        lemma_held_by_both(ones, others, others[i]);
        let j = choose|j: int| 0 <= j < ones.len() && ones[j] == others[i];
        assert(honours_range(&ones[j], before));
    }
    lemma_hit_is_nearest(one, before, r, start, end, found_one);
    lemma_hit_is_nearest(other, before, r, start, end, found_other);
    if let Some(b) = found_other {
        let (i, stop) = choose|i: int, stop: T|
            0 <= i < others.len() && not_after(before, stop, end) && #[trigger] others[i].may_hit(
                r,
                start,
                stop,
                found_other,
            );
        assert(others.contains(others[i]));
        lemma_held_by_both(ones, others, others[i]);
        let j = choose|j: int| 0 <= j < ones.len() && ones[j] == others[i];
        assert(honours_range(&ones[j], before));
        lemma_nothing_nearer(one, before, r, start, end, found_one, j, stop, b);
    }
    if let Some(a) = found_one {
        let (i, stop) = choose|i: int, stop: T|
            0 <= i < ones.len() && not_after(before, stop, end) && #[trigger] ones[i].may_hit(
                r,
                start,
                stop,
                found_one,
            );
        assert(ones.contains(ones[i]));
        lemma_held_by_both(others, ones, ones[i]);
        let j = choose|j: int| 0 <= j < others.len() && others[j] == ones[i];
        assert(honours_range(&ones[i], before));
        lemma_nothing_nearer(other, before, r, start, end, found_other, j, stop, a);
    }
}

} // verus!
