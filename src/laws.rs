use vstd::prelude::*;

use crate::record::views;
use crate::record::MessageView;
use crate::store::filed_under;
use crate::store::sent_by;
use crate::store::MessagesResponse;
use crate::store::StoreError;
use crate::store::StoreView;

verus! {

/// The fields of one `add_message` call: owner, topic and body.
pub type AddRequest = (Seq<char>, Seq<char>, Seq<char>);

/// The results of `add_message` calls made in order from `v`, and the state
/// they leave.
pub open spec fn run_adds(v: StoreView, reqs: Seq<AddRequest>) -> (
    Seq<Result<u128, StoreError>>,
    StoreView,
)
    decreases reqs.len(),
{
    if reqs.len() == 0 {
        (Seq::empty(), v)
    } else {
        let (rs, w) = run_adds(v, reqs.drop_last());
        let (r, w2) = w.add_outcome(reqs.last().0, reqs.last().1, reqs.last().2);
        (rs.push(r), w2)
    }
}

/// A store just instantiated: no message yet.
pub open spec fn fresh(v: StoreView) -> bool {
    v.initialized && v.messages.len() == 0
}

/// After calls that all succeeded, the messages count the calls, and a
/// message keeps its place and its fields through any later calls.
proof fn lemma_run_adds(v: StoreView, reqs: Seq<AddRequest>)
    ensures
        run_adds(v, reqs).0.len() == reqs.len(),
        run_adds(v, reqs).1.messages.len() >= v.messages.len(),
        forall|i: int|
            0 <= i < v.messages.len() ==> #[trigger] run_adds(v, reqs).1.messages[i]
                == v.messages[i],
        (forall|i: int| 0 <= i < reqs.len() ==> (#[trigger] run_adds(v, reqs).0[i]) is Ok)
            ==> run_adds(v, reqs).1.messages.len() == v.messages.len() + reqs.len()
            && (reqs.len() > 0 ==> v.messages.len() + reqs.len() <= u128::MAX),
        (forall|i: int| 0 <= i < reqs.len() ==> (#[trigger] run_adds(v, reqs).0[i]) is Ok)
            ==> forall|i: int|
            0 <= i < reqs.len() ==> #[trigger] run_adds(v, reqs).0[i] == Ok::<u128, StoreError>(
                (v.messages.len() + i) as u128,
            ),
    decreases reqs.len(),
{
    if reqs.len() > 0 {
        let prev = reqs.drop_last();
        lemma_run_adds(v, prev);
        let (rs, w) = run_adds(v, prev);
        let (rs2, w2) = run_adds(v, reqs);
        let o = w.add_outcome(reqs.last().0, reqs.last().1, reqs.last().2);
        assert(rs2 == rs.push(o.0));
        assert(w2 == o.1);
        if forall|i: int| 0 <= i < reqs.len() ==> (#[trigger] rs2[i]) is Ok {
            assert(rs2[reqs.len() - 1] == o.0);
            assert(o.0 is Ok);
            assert(w2.messages.len() == w.messages.len() + 1);
            assert forall|i: int| 0 <= i < prev.len() implies (#[trigger] rs[i]) is Ok by {
                assert(rs2[i] == rs[i]);
            }
            assert(rs2[reqs.len() - 1] is Ok);
            assert forall|i: int| 0 <= i < reqs.len() implies #[trigger] rs2[i] == Ok::<
                u128,
                StoreError,
            >((v.messages.len() + i) as u128) by {
                if i < prev.len() {
                    assert(rs2[i] == rs[i]);
                }
            }
        }
    }
}

/// On a store just instantiated, calls of `add_message` that all succeed
/// return the ids 0, 1, 2, ... in order: increasing, and none twice.
pub proof fn law_ids_count_up(v: StoreView, reqs: Seq<AddRequest>)
    requires
        fresh(v),
        forall|i: int| 0 <= i < reqs.len() ==> (#[trigger] run_adds(v, reqs).0[i]) is Ok,
    ensures
        forall|i: int|
            0 <= i < reqs.len() ==> #[trigger] run_adds(v, reqs).0[i] == Ok::<u128, StoreError>(
                i as u128,
            ),
        forall|i: int, j: int|
            0 <= i < j < reqs.len() ==> (#[trigger] run_adds(v, reqs).0[i])->Ok_0 < (
            #[trigger] run_adds(v, reqs).0[j])->Ok_0,
{
    lemma_run_adds(v, reqs);
    assert forall|i: int, j: int| 0 <= i < j < reqs.len() implies (#[trigger] run_adds(
        v,
        reqs,
    ).0[i])->Ok_0 < (#[trigger] run_adds(v, reqs).0[j])->Ok_0 by {
        assert(run_adds(v, reqs).0[i] == Ok::<u128, StoreError>(i as u128));
        assert(run_adds(v, reqs).0[j] == Ok::<u128, StoreError>(j as u128));
    }
}

/// Once `add_message` has returned `id`, looking up `id` gives back exactly
/// the message with that id and the fields that were sent.
pub proof fn law_round_trip(
    v: StoreView,
    owner: Seq<char>,
    topic: Seq<char>,
    message: Seq<char>,
    r: Result<MessagesResponse, StoreError>,
)
    requires
        v.add_outcome(owner, topic, message).0 is Ok,
        v.add_outcome(owner, topic, message).1.looked_up(
            r,
            v.add_outcome(owner, topic, message).0->Ok_0,
        ),
    ensures
        r is Ok,
        views(r->Ok_0.messages@) == seq![
            MessageView { id: v.add_outcome(owner, topic, message).0->Ok_0, owner, topic, message },
        ],
{
}

/// A message that a lookup has returned is returned alike after any further
/// calls of `add_message`, whatever they return.
pub proof fn law_append_only(
    v: StoreView,
    id: u128,
    before: Result<MessagesResponse, StoreError>,
    reqs: Seq<AddRequest>,
    after: Result<MessagesResponse, StoreError>,
)
    requires
        v.looked_up(before, id),
        before is Ok,
        run_adds(v, reqs).1.looked_up(after, id),
    ensures
        after is Ok,
        views(after->Ok_0.messages@) == views(before->Ok_0.messages@),
{
    lemma_run_adds(v, reqs);
    lemma_run_adds_stays_initialized(v, reqs);
    assert(run_adds(v, reqs).1.messages[id as int] == v.messages[id as int]);
}

proof fn lemma_run_adds_stays_initialized(v: StoreView, reqs: Seq<AddRequest>)
    requires
        v.initialized,
    ensures
        run_adds(v, reqs).1.initialized,
    decreases reqs.len(),
{
    if reqs.len() > 0 {
        lemma_run_adds_stays_initialized(v, reqs.drop_last());
    }
}

/// The messages listed for an owner are those of the full listing that the
/// owner sent, in the same order.
pub proof fn law_owner_filter(
    v: StoreView,
    owner: Seq<char>,
    all: Result<MessagesResponse, StoreError>,
    mine: Result<MessagesResponse, StoreError>,
)
    requires
        v.listed(all, v.messages),
        v.listed(mine, v.by_owner(owner)),
    ensures
        all is Ok <==> mine is Ok,
        all is Ok ==> views(mine->Ok_0.messages@) == views(all->Ok_0.messages@).filter(
            sent_by(owner),
        ),
{
}

/// The messages listed for a topic are those of the full listing under that
/// topic, in the same order.
pub proof fn law_topic_filter(
    v: StoreView,
    topic: Seq<char>,
    all: Result<MessagesResponse, StoreError>,
    under: Result<MessagesResponse, StoreError>,
)
    requires
        v.listed(all, v.messages),
        v.listed(under, v.by_topic(topic)),
    ensures
        all is Ok <==> under is Ok,
        all is Ok ==> views(under->Ok_0.messages@) == views(all->Ok_0.messages@).filter(
            filed_under(topic),
        ),
{
}

/// On a store just instantiated, every listing succeeds and is empty, and
/// the next id is 0.
pub proof fn law_empty_store(
    v: StoreView,
    x: Seq<char>,
    all: Result<MessagesResponse, StoreError>,
    mine: Result<MessagesResponse, StoreError>,
    under: Result<MessagesResponse, StoreError>,
)
    requires
        fresh(v),
        v.listed(all, v.messages),
        v.listed(mine, v.by_owner(x)),
        v.listed(under, v.by_topic(x)),
    ensures
        all is Ok && all->Ok_0.messages@.len() == 0,
        mine is Ok && mine->Ok_0.messages@.len() == 0,
        under is Ok && under->Ok_0.messages@.len() == 0,
        v.current_id_result() == Ok::<u128, StoreError>(0),
{
    reveal(Seq::filter);
    assert(v.by_owner(x).len() == 0);
    assert(v.by_topic(x).len() == 0);
    assert(views(all->Ok_0.messages@).len() == all->Ok_0.messages@.len());
    assert(views(mine->Ok_0.messages@).len() == mine->Ok_0.messages@.len());
    assert(views(under->Ok_0.messages@).len() == under->Ok_0.messages@.len());
}

} // verus!
