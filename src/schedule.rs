//! The decisions of the polling loop: seeding the wheel with the configured
//! endpoints, and at each tick taking the due endpoints out and arming each
//! again for its next cycle.
use vstd::prelude::*;
use crate::model::Endpoint;
use crate::time_wheel::{added, fired, kept, next_pos, Slotted, TimingWheel};

verus! {

/// The buckets after adding each endpoint of `es` in turn, each with its own
/// interval as delay.
pub open spec fn add_all(buckets: Seq<Seq<Slotted<Endpoint>>>, pos: nat, es: Seq<Endpoint>) -> Seq<
    Seq<Slotted<Endpoint>>,
>
    decreases es.len(),
{
    if es.len() == 0 {
        buckets
    } else {
        added(add_all(buckets, pos, es.drop_last()), pos, es.last(), es.last().interval as nat)
    }
}

proof fn lemma_add_all_len(buckets: Seq<Seq<Slotted<Endpoint>>>, pos: nat, es: Seq<Endpoint>)
    requires
        buckets.len() > 0,
    ensures
        add_all(buckets, pos, es).len() == buckets.len(),
    decreases es.len(),
{
    if es.len() > 0 {
        lemma_add_all_len(buckets, pos, es.drop_last());
        let e = es.last();
        vstd::arithmetic::div_mod::lemma_mod_bound(
            (pos + e.interval) as int,
            buckets.len() as int,
        );
    }
}

fn copy_endpoint(e: &Endpoint) -> (r: Endpoint)
    ensures
        r == *e,
{
    Endpoint { series: e.series.clone(), url: e.url.clone(), interval: e.interval }
}

/// Adds every endpoint to the wheel with its own interval as delay, in order.
pub fn schedule_endpoints(tw: &mut TimingWheel<Endpoint>, endpoints: Vec<Endpoint>)
    requires
        old(tw).wf(),
    ensures
        final(tw).wf(),
        final(tw).position() == old(tw).position(),
        final(tw).buckets() == add_all(old(tw).buckets(), old(tw).position(), endpoints@),
{
    let ghost b0 = tw.buckets();
    let ghost pos = tw.position();
    let ghost es = endpoints@;
    let mut rest = endpoints;
    let mut rev: Vec<Endpoint> = Vec::new();
    while rest.len() > 0
        invariant
            rest@.len() + rev@.len() == es.len(),
            forall|j: int| 0 <= j < rest@.len() ==> rest@[j] == es[j],
            forall|j: int|
                0 <= j < rev@.len() ==> #[trigger] rev@[j] == es[es.len() - 1 - j],
        decreases rest@.len(),
    {
        let e = rest.pop().unwrap();
        rev.push(e);
    }
    while rev.len() > 0
        invariant
            tw.wf(),
            tw.position() == pos,
            tw.buckets() == add_all(b0, pos, es.take(es.len() - rev@.len())),
            rev@.len() <= es.len(),
            forall|j: int|
                0 <= j < rev@.len() ==> #[trigger] rev@[j] == es[es.len() - 1 - j],
            b0.len() > 0,
        decreases rev@.len(),
    {
        let ghost k = es.len() - rev@.len();
        let e = rev.pop().unwrap();
        let d = e.interval as usize;
        proof {
            lemma_add_all_len(b0, pos, es.take(k));
            assert(es.take(k + 1).drop_last() =~= es.take(k));
        }
        tw.add(e, d);
    }
    assert(es.take(es.len() as int) =~= es);
}

/// One step of the polling loop: ticks the wheel, arms every due endpoint
/// again with its own interval, and returns the due endpoints, to be checked.
pub fn advance_schedule(tw: &mut TimingWheel<Endpoint>) -> (due: Vec<Endpoint>)
    requires
        old(tw).wf(),
    ensures
        final(tw).wf(),
        final(tw).position() == next_pos(old(tw).buckets().len(), old(tw).position()),
        due@ == fired(old(tw).buckets()[final(tw).position() as int]),
        final(tw).buckets() == add_all(
            old(tw).buckets().update(
                final(tw).position() as int,
                kept(old(tw).buckets()[final(tw).position() as int]),
            ),
            final(tw).position(),
            due@,
        ),
{
    let due = tw.tick();
    let mut again: Vec<Endpoint> = Vec::new();
    let mut i: usize = 0;
    while i < due.len()
        invariant
            i <= due@.len(),
            again@ == due@.take(i as int),
        decreases due@.len() - i,
    {
        again.push(copy_endpoint(&due[i]));
        i = i + 1;
        assert(again@ =~= due@.take(i as int));
    }
    assert(again@ =~= due@);
    schedule_endpoints(tw, again);
    due
}

} // verus!
