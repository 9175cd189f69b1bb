//! Routes bind a matcher to a destination; the dispatcher turns a batch of
//! updates into the deliveries that the routes call for.
use vstd::prelude::*;

use crate::matcher::Matcher;
use crate::message::{Message, Update, UpdateKind};

verus! {

/// Where matched text goes. A remote page is named by its id; writing to it
/// is the caller's part.
#[derive(Clone, Debug)]
pub enum DestinationType {
    Notion { page_id: String },
}

/// One forwarding rule: messages that `matcher` accepts go to `destination`.
pub struct ForwardConfig<M: Matcher> {
    pub matcher: M,
    pub destination: DestinationType,
}

/// One call that the caller is to make: hand `text` to the destination of the
/// route at index `route` of the table.
#[derive(Clone, Debug)]
pub struct Delivery {
    pub route: usize,
    pub text: String,
}

impl View for Delivery {
    type V = (nat, Seq<char>);

    open spec fn view(&self) -> (nat, Seq<char>) {
        (self.route as nat, self.text@)
    }
}

/// The deliveries that the first `n` routes of the table owe message `m`, in
/// table order: one for each route whose matcher accepts it, carrying the
/// whole text of the message. A message without text owes none.
pub open spec fn route_hits<M: Matcher>(routes: Seq<ForwardConfig<M>>, m: Message, n: nat) -> Seq<(nat, Seq<char>)>
    decreases n,
{
    if n == 0 {
        seq![]
    } else {
        let prev = route_hits(routes, m, (n - 1) as nat);
        if m.text is Some && routes[n - 1].matcher.accepts(m) {
            prev.push(((n - 1) as nat, m.text->Some_0@))
        } else {
            prev
        }
    }
}

/// The deliveries that one update owes: those of its message over the whole
/// table, none where it carries no message.
pub open spec fn update_deliveries<M: Matcher>(routes: Seq<ForwardConfig<M>>, u: Update) -> Seq<(nat, Seq<char>)> {
    match u.kind {
        UpdateKind::Message(m) => route_hits(routes, m, routes.len()),
        UpdateKind::Other => seq![],
    }
}

/// The deliveries that the first `n` updates of a batch owe, update by update.
pub open spec fn batch_deliveries<M: Matcher>(routes: Seq<ForwardConfig<M>>, updates: Seq<Update>, n: nat) -> Seq<(nat, Seq<char>)>
    decreases n,
{
    if n == 0 {
        seq![]
    } else {
        batch_deliveries(routes, updates, (n - 1) as nat) + update_deliveries(routes, updates[n - 1])
    }
}

/// Every delivery that the first `n` routes owe a message goes to one of
/// them whose matcher accepts it and carries the message's text; each such
/// route gets exactly one, in table order.
pub proof fn lemma_route_hits<M: Matcher>(routes: Seq<ForwardConfig<M>>, m: Message, n: nat)
    requires
        n <= routes.len(),
    ensures
        forall|k: int| 0 <= k < route_hits(routes, m, n).len() ==> {
            let d = #[trigger] route_hits(routes, m, n)[k];
            &&& d.0 < n
            &&& m.text is Some
            &&& d.1 == m.text->Some_0@
            &&& routes[d.0 as int].matcher.accepts(m)
        },
        forall|k1: int, k2: int| 0 <= k1 < k2 < route_hits(routes, m, n).len()
            ==> #[trigger] route_hits(routes, m, n)[k1].0 < #[trigger] route_hits(routes, m, n)[k2].0,
        forall|j: nat| j < n && m.text is Some && #[trigger] routes[j as int].matcher.accepts(m)
            ==> exists|k: int| 0 <= k < route_hits(routes, m, n).len() && #[trigger] route_hits(routes, m, n)[k].0 == j,
    decreases n,
{
    if n > 0 {
        lemma_route_hits(routes, m, (n - 1) as nat);
        let prev = route_hits(routes, m, (n - 1) as nat);
        let cur = route_hits(routes, m, n);
        assert forall|j: nat| j < n && m.text is Some && #[trigger] routes[j as int].matcher.accepts(m)
            implies exists|k: int| 0 <= k < cur.len() && #[trigger] cur[k].0 == j by {
            if j < n - 1 {
                let k = choose|k: int| 0 <= k < prev.len() && #[trigger] prev[k].0 == j;
                assert(cur[k] == prev[k]);
            } else {
                assert(cur[prev.len() as int].0 == j);
            }
        }
    }
}

/// Routes are evaluated independently: a message owes a delivery to a route
/// exactly when that route's matcher accepts it (and it has text), whatever
/// the other routes decide; each delivery carries the whole message text.
pub proof fn lemma_routes_independent<M: Matcher>(routes: Seq<ForwardConfig<M>>, m: Message, j: nat)
    requires
        j < routes.len(),
    ensures
        (exists|k: int| 0 <= k < route_hits(routes, m, routes.len()).len()
            && #[trigger] route_hits(routes, m, routes.len())[k].0 == j)
            <==> (m.text is Some && routes[j as int].matcher.accepts(m)),
        forall|k: int| 0 <= k < route_hits(routes, m, routes.len()).len()
            ==> (#[trigger] route_hits(routes, m, routes.len())[k]).1 == m.text->Some_0@,
{
    lemma_route_hits(routes, m, routes.len());
}

/// The views of a list of deliveries.
pub open spec fn delivery_views(ds: Seq<Delivery>) -> Seq<(nat, Seq<char>)> {
    ds.map_values(|d: Delivery| d@)
}

/// Appends to `out` the deliveries that message `m` owes, evaluating every
/// route in table order.
fn push_message_deliveries<M: Matcher>(routes: &Vec<ForwardConfig<M>>, m: &Message, out: &mut Vec<Delivery>)
    ensures
        delivery_views(final(out)@) == delivery_views(old(out)@) + route_hits(routes@, *m, routes@.len() as nat),
{
    let ghost start = delivery_views(out@);
    let mut i: usize = 0;
    while i < routes.len()
        invariant
            0 <= i <= routes@.len(),
            delivery_views(out@) == start + route_hits(routes@, *m, i as nat),
        decreases routes@.len() - i,
    {
        let hit = routes[i].matcher.match_message(m);
        if hit {
            match &m.text {
                Some(t) => {
                    let ghost before = out@;
                    out.push(Delivery { route: i, text: t.clone() });
                    assert(delivery_views(out@) =~= delivery_views(before).push((i as nat, t@)));
                },
                None => {},
            }
        }
        i += 1;
    }
}

/// The dispatcher: the deliveries that a batch of updates calls for, in order
/// (updates in batch order, and for each message the matching routes in table
/// order). Updates that carry no message are skipped. Each delivery stands on
/// its own: the caller makes every one of them whatever became of the others.
pub fn handle_updates<M: Matcher>(updates: &Vec<Update>, routes: &Vec<ForwardConfig<M>>) -> (r: Vec<Delivery>)
    ensures
        delivery_views(r@) == batch_deliveries(routes@, updates@, updates@.len() as nat),
{
    let mut out: Vec<Delivery> = Vec::new();
    let mut i: usize = 0;
    assert(delivery_views(out@) =~= seq![]);
    while i < updates.len()
        invariant
            0 <= i <= updates@.len(),
            delivery_views(out@) == batch_deliveries(routes@, updates@, i as nat),
        decreases updates@.len() - i,
    {
        match &updates[i].kind {
            UpdateKind::Message(m) => {
                push_message_deliveries(routes, m, &mut out);
            },
            UpdateKind::Other => {
                assert(delivery_views(out@) =~= delivery_views(out@) + seq![]);
            },
        }
        i += 1;
    }
    out
}

} // verus!
