//! The grouping accumulator: a mapping from class identifier to an
//! in-progress calendar, seeded with the default bucket, plus the finalize
//! step that emits one rewritten calendar per non-empty group.

use vstd::prelude::*;
use crate::classifier::class_code_for;
use crate::classifier::route_spec;
use crate::default_class;
use crate::default_class_spec;
use crate::header::get_new_header;
use crate::header::rewrite_header_spec;
use crate::str_eq;
use crate::types::Component;
use crate::types::Property;
use crate::types::props_model;

verus! {

/// One in-progress group: its class identifier and its components in
/// insertion order.
struct Group {
    code: String,
    components: Vec<Component>,
}

/// One finished output calendar: its class identifier, its rewritten header,
/// and its components in insertion order.
pub struct ClassCalendar {
    pub code: String,
    pub header: Vec<Property>,
    pub components: Vec<Component>,
}

/// The grouping accumulator. It owns the header template of the source
/// calendar and one group per class identifier seen so far, with the
/// reserved default bucket present from construction on.
pub struct Classes {
    header: Vec<Property>,
    groups: Vec<Group>,
}

/// The groups as key/component-sequence pairs, in order.
spec fn groups_model(gs: Seq<Group>) -> Seq<(Seq<char>, Seq<Component>)> {
    Seq::new(gs.len(), |i: int| (gs[i].code@, gs[i].components@))
}

/// What one insertion does to the groups: append the component to the group
/// that already carries `code`, or, if none does, add a new group holding
/// exactly that component at the end.
pub open spec fn insert_model(
    gs: Seq<(Seq<char>, Seq<Component>)>,
    code: Seq<char>,
    c: Component,
) -> Seq<(Seq<char>, Seq<Component>)> {
    if exists|i: int| 0 <= i < gs.len() && (#[trigger] gs[i]).0 == code {
        let i = choose|i: int| 0 <= i < gs.len() && (#[trigger] gs[i]).0 == code;
        gs.update(i, (code, gs[i].1.push(c)))
    } else {
        gs.push((code, seq![c]))
    }
}

/// The groups that finalize emits: every group, except the default bucket
/// when it stayed empty. Under `Classes::wf` the default bucket is the first
/// group.
pub open spec fn emitted_groups(gs: Seq<(Seq<char>, Seq<Component>)>) -> Seq<
    (Seq<char>, Seq<Component>),
> {
    if gs.len() >= 1 && gs[0].1.len() == 0 {
        gs.drop_first()
    } else {
        gs
    }
}

/// The default bucket, which sits first, is left out of the emission exactly
/// when it is empty; every other group is always emitted, unchanged and in
/// order.
pub proof fn lemma_default_bucket_omitted_iff_empty(gs: Seq<(Seq<char>, Seq<Component>)>)
    requires
        gs.len() >= 1,
    ensures
        gs[0].1.len() == 0 ==> emitted_groups(gs).len() == gs.len() - 1 && (forall|k: int|
            0 <= k < gs.len() - 1 ==> #[trigger] emitted_groups(gs)[k] == gs[k + 1]),
        gs[0].1.len() > 0 ==> emitted_groups(gs) == gs,
{
}

impl Classes {
    /// The header template, as key/value pairs in original order.
    pub closed spec fn header_model(self) -> Seq<(Seq<char>, Seq<char>)> {
        props_model(self.header@)
    }

    /// The groups accumulated so far: class identifier and components, in
    /// order of first insertion.
    pub closed spec fn groups(self) -> Seq<(Seq<char>, Seq<Component>)> {
        groups_model(self.groups@)
    }

    /// Well-formed: the default bucket is the first group and no two groups
    /// share a class identifier.
    pub open spec fn wf(self) -> bool {
        &&& self.groups().len() >= 1
        &&& self.groups()[0].0 == default_class_spec()
        &&& forall|i: int, j: int|
            0 <= i < j < self.groups().len() ==> (#[trigger] self.groups()[i]).0 != (
            #[trigger] self.groups()[j]).0
    }

    /// Creates the accumulator: stores the header template and pre-seeds the
    /// default bucket as the only, still empty, group.
    pub fn new(cal_header: Vec<Property>) -> (r: Classes)
        ensures
            r.wf(),
            r.header_model() == props_model(cal_header@),
            r.groups() == seq![(default_class_spec(), Seq::<Component>::empty())],
    {
        let mut groups: Vec<Group> = Vec::new();
        groups.push(Group { code: default_class(), components: Vec::new() });
        let r = Classes { header: cal_header, groups };
        proof {
            assert(r.groups() =~= seq![(default_class_spec(), Seq::<Component>::empty())]);
        }
        r
    }

    /// Appends `component` to the group keyed by `class_code`, creating that
    /// group if it does not exist yet.
    pub fn insert_component(&mut self, class_code: String, component: Component)
        requires
            old(self).wf(),
        ensures
            final(self).wf(),
            final(self).header_model() == old(self).header_model(),
            final(self).groups() == insert_model(old(self).groups(), class_code@, component),
    {
        let ghost gs0 = old(self).groups();
        let n = self.groups.len();
        let mut found = false;
        let mut idx: usize = 0;
        while idx < n && !found
            invariant
                *self == *old(self),
                n == self.groups@.len(),
                0 <= idx <= n,
                found ==> idx < n && self.groups@[idx as int].code@ == class_code@,
                !found ==> forall|k: int|
                    0 <= k < idx ==> (#[trigger] self.groups@[k]).code@ != class_code@,
            decreases n - idx + (if found {
                0int
            } else {
                1int
            }),
        {
            if str_eq(self.groups[idx].code.as_str(), class_code.as_str()) {
                found = true;
            } else {
                idx += 1;
            }
        }
        if found {
            self.groups[idx].components.push(component);
            proof {
                assert(0 <= idx < gs0.len() && gs0[idx as int].0 == class_code@);
                let j = choose|i: int| 0 <= i < gs0.len() && (#[trigger] gs0[i]).0 == class_code@;
                assert(j == idx) by {
                    if j < idx as int {
                        assert(gs0[j].0 != gs0[idx as int].0);
                    } else if j > idx as int {
                        assert(gs0[idx as int].0 != gs0[j].0);
                    }
                }
                assert(self.groups() =~= gs0.update(
                    idx as int,
                    (class_code@, gs0[idx as int].1.push(component)),
                ));
                assert forall|i: int| 0 <= i < self.groups().len() implies (
                #[trigger] self.groups()[i]).0 == gs0[i].0 by {}
            }
        } else {
            let mut first: Vec<Component> = Vec::new();
            first.push(component);
            self.groups.push(Group { code: class_code, components: first });
            proof {
                assert(forall|i: int|
                    0 <= i < gs0.len() ==> (#[trigger] gs0[i]).0 == self.groups@[i].code@);
                assert(!(exists|i: int| 0 <= i < gs0.len() && (#[trigger] gs0[i]).0 == class_code@));
                assert(self.groups() =~= gs0.push((class_code@, seq![component])));
            }
        }
    }

    /// Consumes the accumulator and emits one output calendar per group,
    /// skipping only the default bucket and only when it is empty: each
    /// emitted calendar carries its class identifier, the header template
    /// rewritten for that identifier, and the group's components in
    /// insertion order.
    pub fn finalize(self) -> (r: Vec<ClassCalendar>)
        requires
            self.wf(),
        ensures
            ({
                let emitted = emitted_groups(self.groups());
                &&& r@.len() == emitted.len()
                &&& forall|k: int|
                    0 <= k < emitted.len() ==> {
                        &&& (#[trigger] r@[k]).code@ == emitted[k].0
                        &&& r@[k].components@ == emitted[k].1
                        &&& props_model(r@[k].header@) == rewrite_header_spec(
                            emitted[k].0,
                            self.header_model(),
                        )
                    }
            }),
    {
        let ghost gs0 = self.groups();
        let ghost hm = self.header_model();
        let ghost emitted = emitted_groups(gs0);
        let ghost skipped = gs0[0].1.len() == 0;
        let Classes { header, mut groups } = self;
        proof {
            assert(groups_model(groups@) == gs0);
        }
        let mut out: Vec<ClassCalendar> = Vec::new();
        let ghost gv0 = groups@;
        let g0 = groups.remove(0);
        proof {
            assert(g0 == gv0[0]);
            assert(gs0[0] == (g0.code@, g0.components@));
            assert forall|k: int| 0 <= k < groups@.len() implies #[trigger] groups_model(groups@)[k]
                == gs0.skip(1)[k] by {
                assert(groups@[k] == gv0[k + 1]);
                assert(gs0.skip(1)[k] == gs0[k + 1]);
            }
            assert(groups_model(groups@) =~= gs0.skip(1));
        }
        if g0.components.len() > 0 {
            let hdr = get_new_header(g0.code.clone(), clone_properties(&header));
            out.push(ClassCalendar { code: g0.code, header: hdr, components: g0.components });
            proof {
                assert(emitted == gs0);
                assert(out@[0].code@ == emitted[0].0);
            }
        } else {
            proof {
                assert(emitted == gs0.drop_first());
            }
        }
        let ghost done: int = 1;
        while groups.len() > 0
            invariant
                1 <= done <= gs0.len(),
                groups_model(groups@) == gs0.skip(done),
                emitted == emitted_groups(gs0),
                skipped == (gs0[0].1.len() == 0),
                emitted == if skipped {
                    gs0.drop_first()
                } else {
                    gs0
                },
                out@.len() == done - (if skipped {
                    1int
                } else {
                    0int
                }),
                props_model(header@) == hm,
                forall|k: int|
                    0 <= k < out@.len() ==> {
                        &&& (#[trigger] out@[k]).code@ == emitted[k].0
                        &&& out@[k].components@ == emitted[k].1
                        &&& props_model(out@[k].header@) == rewrite_header_spec(emitted[k].0, hm)
                    },
            decreases groups@.len(),
        {
            proof {
                assert(groups_model(groups@).len() == gs0.skip(done).len());
                assert(done < gs0.len());
            }
            let ghost gv = groups@;
            let g = groups.remove(0);
            proof {
                assert(g == gv[0]);
                assert(groups_model(gv)[0] == (g.code@, g.components@));
                assert(gs0.skip(done)[0] == gs0[done]);
                assert((g.code@, g.components@) == gs0[done]);
                assert forall|k: int|
                    0 <= k < groups@.len() implies #[trigger] groups_model(groups@)[k] == gs0.skip(
                    done + 1,
                )[k] by {
                    assert(groups@[k] == gv[k + 1]);
                    assert(groups_model(gv)[k + 1] == (gv[k + 1].code@, gv[k + 1].components@));
                    assert(gs0.skip(done)[k + 1] == gs0[done + 1 + k]);
                    assert(gs0.skip(done + 1)[k] == gs0[done + 1 + k]);
                }
                assert(groups_model(groups@) =~= gs0.skip(done + 1));
            }
            let hdr = get_new_header(g.code.clone(), clone_properties(&header));
            out.push(ClassCalendar { code: g.code, header: hdr, components: g.components });
            proof {
                let k = out@.len() - 1;
                assert(emitted[k] == gs0[done]);
                done = done + 1;
            }
        }
        proof {
            assert(gs0.skip(done).len() == 0);
            assert(done == gs0.len());
            assert(out@.len() == emitted.len());
        }
        out
    }
}

/// A copy of a header, property for property.
fn clone_properties(ps: &Vec<Property>) -> (r: Vec<Property>)
    ensures
        r@ == ps@,
{
    let mut r: Vec<Property> = Vec::new();
    let mut i: usize = 0;
    while i < ps.len()
        invariant
            0 <= i <= ps@.len(),
            r@.len() == i,
            forall|k: int| 0 <= k < i ==> r@[k] == ps@[k],
        decreases ps@.len() - i,
    {
        let p = &ps[i];
        r.push(Property { key: p.key.clone(), value: p.value.clone() });
        i += 1;
    }
    proof {
        assert(r@ =~= ps@);
    }
    r
}

/// Routes every component of `components`, in stream order, into a fresh
/// accumulator built on `cal_header`. The resulting groups partition the
/// input exactly: each group holds precisely the components routed to its
/// identifier, in their original relative order, and every component's
/// identifier owns a group.
pub fn split_components(cal_header: Vec<Property>, components: Vec<Component>) -> (r: Classes)
    ensures
        r.wf(),
        r.header_model() == props_model(cal_header@),
        forall|k: int|
            0 <= k < r.groups().len() ==> (#[trigger] r.groups()[k]).1 == components@.filter(
                |c: Component| route_spec(c) == r.groups()[k].0,
            ),
        forall|j: int|
            0 <= j < components@.len() ==> exists|k: int|
                0 <= k < r.groups().len() && (#[trigger] r.groups()[k]).0 == route_spec(
                    #[trigger] components@[j],
                ),
{
    let ghost orig = components@;
    let ghost hm = props_model(cal_header@);
    let mut classes = Classes::new(cal_header);
    proof {
        assert(Seq::<Component>::empty().filter(
            |c: Component| route_spec(c) == default_class_spec(),
        ) =~= Seq::<Component>::empty()) by {
            reveal(Seq::filter);
        }
        assert(orig.take(0) =~= Seq::<Component>::empty());
    }
    let mut comps = components;
    let ghost done: int = 0;
    while comps.len() > 0
        invariant
            classes.wf(),
            classes.header_model() == hm,
            0 <= done <= orig.len(),
            comps@ == orig.skip(done),
            forall|k: int|
                0 <= k < classes.groups().len() ==> (#[trigger] classes.groups()[k]).1
                    == orig.take(done).filter(
                    |c: Component| route_spec(c) == classes.groups()[k].0,
                ),
            forall|j: int|
                0 <= j < done ==> exists|k: int|
                    0 <= k < classes.groups().len() && (#[trigger] classes.groups()[k]).0
                        == route_spec(#[trigger] orig[j]),
        decreases comps@.len(),
    {
        let c = comps.remove(0);
        proof {
            assert(c == orig[done]);
            assert(comps@ =~= orig.skip(done + 1));
        }
        let code = class_code_for(&c);
        let ghost pre = classes.groups();
        classes.insert_component(code, c);
        proof {
            lemma_insert_keeps_partition(pre, classes.groups(), orig, done, c);
            done = done + 1;
        }
    }
    proof {
        assert(orig.take(orig.len() as int) =~= orig);
    }
    classes
}

/// One filtering step: pushing an element keeps the filtered sequence, and
/// appends the element exactly when it satisfies the predicate.
proof fn lemma_filter_push(s: Seq<Component>, pred: spec_fn(Component) -> bool, x: Component)
    ensures
        pred(x) ==> s.push(x).filter(pred) == s.filter(pred).push(x),
        !pred(x) ==> s.push(x).filter(pred) == s.filter(pred),
{
    reveal(Seq::filter);
    assert(s.push(x).drop_last() =~= s);
    assert(s.push(x).last() == x);
}

/// The partition invariant of `split_components` survives one insertion:
/// if before inserting component `orig[done]` every group held exactly the
/// matching components of `orig.take(done)` and every earlier component's
/// identifier owned a group, the same holds of `orig.take(done + 1)` after.
proof fn lemma_insert_keeps_partition(
    pre: Seq<(Seq<char>, Seq<Component>)>,
    post: Seq<(Seq<char>, Seq<Component>)>,
    orig: Seq<Component>,
    done: int,
    c: Component,
)
    requires
        0 <= done < orig.len(),
        c == orig[done],
        post == insert_model(pre, route_spec(c), c),
        forall|i: int, j: int|
            0 <= i < j < pre.len() ==> (#[trigger] pre[i]).0 != (#[trigger] pre[j]).0,
        forall|k: int|
            0 <= k < pre.len() ==> (#[trigger] pre[k]).1 == orig.take(done).filter(
                |x: Component| route_spec(x) == pre[k].0,
            ),
        forall|j: int|
            0 <= j < done ==> exists|k: int|
                0 <= k < pre.len() && (#[trigger] pre[k]).0 == route_spec(#[trigger] orig[j]),
    ensures
        forall|k: int|
            0 <= k < post.len() ==> (#[trigger] post[k]).1 == orig.take(done + 1).filter(
                |x: Component| route_spec(x) == post[k].0,
            ),
        forall|j: int|
            0 <= j < done + 1 ==> exists|k: int|
                0 <= k < post.len() && (#[trigger] post[k]).0 == route_spec(#[trigger] orig[j]),
{
    let code = route_spec(c);
    assert(orig.take(done + 1) =~= orig.take(done).push(c));
    if exists|i: int| 0 <= i < pre.len() && (#[trigger] pre[i]).0 == code {
        let t = choose|i: int| 0 <= i < pre.len() && (#[trigger] pre[i]).0 == code;
        assert(post == pre.update(t, (code, pre[t].1.push(c))));
        assert forall|k: int| 0 <= k < post.len() implies (#[trigger] post[k]).1 == orig.take(
            done + 1,
        ).filter(|x: Component| route_spec(x) == post[k].0) by {
            let pred = |x: Component| route_spec(x) == post[k].0;
            lemma_filter_push(orig.take(done), pred, c);
            if k == t {
                assert(post[k].0 == code);
                assert(pred(c));
                assert(pre[k].1 == orig.take(done).filter(pred));
            } else {
                assert(post[k] == pre[k]);
                if k < t {
                    assert(pre[k].0 != pre[t].0);
                } else {
                    assert(pre[t].0 != pre[k].0);
                }
                assert(!pred(c));
            }
        }
        assert forall|j: int| 0 <= j < done + 1 implies exists|k: int|
            0 <= k < post.len() && (#[trigger] post[k]).0 == route_spec(#[trigger] orig[j]) by {
            if j < done {
                let k0 = choose|k: int|
                    0 <= k < pre.len() && (#[trigger] pre[k]).0 == route_spec(orig[j]);
                assert(post[k0].0 == pre[k0].0);
            } else {
                assert(post[t].0 == route_spec(orig[j]));
            }
        }
    } else {
        assert(post == pre.push((code, seq![c])));
        let fresh: int = pre.len() as int;
        assert forall|k: int| 0 <= k < post.len() implies (#[trigger] post[k]).1 == orig.take(
            done + 1,
        ).filter(|x: Component| route_spec(x) == post[k].0) by {
            let pred = |x: Component| route_spec(x) == post[k].0;
            lemma_filter_push(orig.take(done), pred, c);
            if k == fresh {
                assert(post[k] == (code, seq![c]));
                assert(pred(c));
                assert forall|x: Component| orig.take(done).contains(x) implies !pred(x) by {
                    let j = choose|j: int| 0 <= j < done && orig.take(done)[j] == x;
                    assert(orig[j] == x);
                    let k0 = choose|k0: int|
                        0 <= k0 < pre.len() && (#[trigger] pre[k0]).0 == route_spec(orig[j]);
                    if pred(x) {
                        assert(pre[k0].0 == code);
                    }
                }
                assert(orig.take(done).all(|x: Component| !pred(x)));
                orig.take(done).lemma_all_neg_filter_empty(pred);
                assert(orig.take(done).filter(pred) =~= Seq::<Component>::empty());
                assert(orig.take(done + 1).filter(pred) =~= seq![c]);
            } else {
                assert(post[k] == pre[k]);
                assert(!pred(c));
            }
        }
        assert forall|j: int| 0 <= j < done + 1 implies exists|k: int|
            0 <= k < post.len() && (#[trigger] post[k]).0 == route_spec(#[trigger] orig[j]) by {
            if j < done {
                let k0 = choose|k: int|
                    0 <= k < pre.len() && (#[trigger] pre[k]).0 == route_spec(orig[j]);
                assert(post[k0].0 == pre[k0].0);
            } else {
                assert(post[fresh].0 == route_spec(orig[j]));
            }
        }
    }
}

} // verus!
