use vstd::prelude::*;
use vstd::string::StringSliceAdditionalSpecFns;

use crate::bytes::{decimal, lemma_decimal_injective};
use crate::matcher::{has_header, header_values, is_json, json_post_accepts, Predicate};
use crate::request::{fallback_view, Request};
use crate::table::{
    all_violations, last_match, lemma_last_match_range, lemma_slot_index_range, pick, reply,
    slot_index, step, violated, violation_of, violations, Expectation, Pick, Slot, TableView,
};

verus! {

/// The state after routing each request in turn, each body parsed as JSON.
pub open spec fn run(v: TableView, reqs: Seq<Request>) -> TableView
    decreases reqs.len(),
{
    if reqs.len() == 0 {
        v
    } else {
        step(run(v, reqs.drop_last()), reqs.last(), is_json(reqs.last().body@))
    }
}

/// How many times the picked rule has answered; for no match, the length of
/// the unmatched log.
pub open spec fn calls_at(v: TableView, p: Pick) -> int {
    match p {
        Pick::Scoped(i) => v.scoped[i].calls as int,
        Pick::Global(i) => v.global[i].calls as int,
        Pick::NoMatch => v.unmatched.len() as int,
    }
}

pub open spec fn pick_in_range(v: TableView, p: Pick) -> bool {
    match p {
        Pick::Scoped(i) => 0 <= i < v.scoped.len(),
        Pick::Global(i) => 0 <= i < v.global.len(),
        Pick::NoMatch => true,
    }
}

/// Two slot sequences hold the same rules in the same order.
pub open spec fn same_rules(a: Seq<Slot>, b: Seq<Slot>) -> bool {
    &&& a.len() == b.len()
    &&& forall|i: int| 0 <= i < a.len() ==> (#[trigger] a[i]).rule == b[i].rule
}

proof fn lemma_last_match_none(slots: Seq<Slot>, req: Request, json: bool)
    requires
        forall|i: int| 0 <= i < slots.len() ==> !(#[trigger] slots[i]).rule.matcher.holds(req, json),
    ensures
        last_match(slots, req, json) == -1,
    decreases slots.len(),
{
    if slots.len() > 0 {
        assert(slots.last() == slots[slots.len() - 1]);
        assert forall|i: int| 0 <= i < slots.len() - 1 implies !(
        #[trigger] slots.drop_last()[i]).rule.matcher.holds(req, json) by {
            assert(slots.drop_last()[i] == slots[i]);
        }
        lemma_last_match_none(slots.drop_last(), req, json);
    }
}

proof fn lemma_last_match_at_least(slots: Seq<Slot>, k: int, req: Request, json: bool)
    requires
        0 <= k < slots.len(),
        slots[k].rule.matcher.holds(req, json),
    ensures
        last_match(slots, req, json) >= k,
        (forall|i: int| k < i < slots.len() ==> !(#[trigger] slots[i]).rule.matcher.holds(req, json))
            ==> last_match(slots, req, json) == k,
    decreases slots.len(),
{
    if k < slots.len() - 1 {
        assert(slots.drop_last()[k] == slots[k]);
        lemma_last_match_at_least(slots.drop_last(), k, req, json);
        if forall|i: int| k < i < slots.len() ==> !(#[trigger] slots[i]).rule.matcher.holds(req, json) {
            assert(!slots[slots.len() - 1].rule.matcher.holds(req, json));
            assert forall|i: int| k < i < slots.len() - 1 implies !(
            #[trigger] slots.drop_last()[i]).rule.matcher.holds(req, json) by {
                assert(slots.drop_last()[i] == slots[i]);
            }
        }
    }
}

proof fn lemma_same_rules_match(a: Seq<Slot>, b: Seq<Slot>, req: Request, json: bool)
    requires
        same_rules(a, b),
    ensures
        last_match(a, req, json) == last_match(b, req, json),
    decreases a.len(),
{
    if a.len() > 0 {
        assert(a.last().rule == b.last().rule);
        assert forall|i: int| 0 <= i < a.len() - 1 implies (#[trigger] a.drop_last()[i]).rule
            == b.drop_last()[i].rule by {
            assert(a.drop_last()[i] == a[i]);
            assert(b.drop_last()[i] == b[i]);
        }
        lemma_same_rules_match(a.drop_last(), b.drop_last(), req, json);
    }
}

proof fn lemma_step_keeps_rules(v: TableView, req: Request, json: bool)
    ensures
        same_rules(step(v, req, json).scoped, v.scoped),
        same_rules(step(v, req, json).global, v.global),
{
    lemma_last_match_range(v.scoped, req, json);
    lemma_last_match_range(v.global, req, json);
}

/// A request that no rule accepts gets the fixed 404 fallback response, is
/// logged as unmatched exactly once more, and changes no rule.
pub proof fn law_unmatched_logged_once(v: TableView, req: Request, json: bool)
    requires
        forall|i: int| 0 <= i < v.scoped.len() ==> !(#[trigger] v.scoped[i]).rule.matcher.holds(req, json),
        forall|i: int| 0 <= i < v.global.len() ==> !(#[trigger] v.global[i]).rule.matcher.holds(req, json),
    ensures
        pick(v, req, json) == Pick::NoMatch,
        reply(v, req, json) == fallback_view(),
        reply(v, req, json).status == 404,
        step(v, req, json).unmatched.to_multiset().count(req) == v.unmatched.to_multiset().count(req) + 1,
        step(v, req, json).scoped == v.scoped,
        step(v, req, json).global == v.global,
{
    broadcast use vstd::seq_lib::group_to_multiset_ensures;

    lemma_last_match_none(v.scoped, req, json);
    lemma_last_match_none(v.global, req, json);
    assert(v.unmatched.push(req).to_multiset() =~= v.unmatched.to_multiset().insert(req));
}

/// While a scoped rule is registered, a request that its matcher accepts is
/// answered by a scoped rule, never by a global rule with the same matcher;
/// by that very rule when no later scoped rule accepts the request.
pub proof fn law_scoped_shadows_global(v: TableView, s: int, g: int, req: Request, json: bool)
    requires
        0 <= s < v.scoped.len(),
        0 <= g < v.global.len(),
        v.scoped[s].rule.matcher == v.global[g].rule.matcher,
        v.global[g].rule.matcher.holds(req, json),
    ensures
        pick(v, req, json) is Scoped,
        (forall|i: int| s < i < v.scoped.len() ==> !(#[trigger] v.scoped[i]).rule.matcher.holds(req, json))
            ==> pick(v, req, json) == Pick::Scoped(s) && reply(v, req, json) == v.scoped[s].rule.response@
            && step(v, req, json).global == v.global && (v.scoped[s].calls < u64::MAX ==> step(
            v,
            req,
            json,
        ).scoped[s].calls == v.scoped[s].calls + 1),
{
    lemma_last_match_at_least(v.scoped, s, req, json);
}

/// Releasing a scoped rule keeps every other rule, in order and with its
/// count; a request that only the released rule among the scoped ones
/// accepted now goes to the most recent matching global rule, or to the
/// fallback response when none matches.
pub proof fn law_release_falls_back(v: TableView, id: crate::table::RuleId, req: Request, json: bool)
    requires
        slot_index(v.scoped, id) >= 0,
        forall|i: int|
            0 <= i < v.scoped.len() && i != slot_index(v.scoped, id) ==> !(
            #[trigger] v.scoped[i]).rule.matcher.holds(req, json),
    ensures
        ({
            let k = slot_index(v.scoped, id);
            let w = TableView { scoped: v.scoped.remove(k), ..v };
            let g = last_match(v.global, req, json);
            &&& w.global == v.global
            &&& w.scoped.len() == v.scoped.len() - 1
            &&& forall|i: int| 0 <= i < k ==> #[trigger] w.scoped[i] == v.scoped[i]
            &&& forall|i: int| k <= i < w.scoped.len() ==> #[trigger] w.scoped[i] == v.scoped[i + 1]
            &&& pick(w, req, json) == if g >= 0 {
                Pick::Global(g)
            } else {
                Pick::NoMatch
            }
            &&& reply(w, req, json) == if g >= 0 {
                v.global[g].rule.response@
            } else {
                fallback_view()
            }
            &&& step(w, req, json).scoped == w.scoped
            &&& g >= 0 && v.global[g].calls < u64::MAX ==> step(w, req, json).global[g].calls
                == v.global[g].calls + 1
            &&& g < 0 ==> step(w, req, json).unmatched == v.unmatched.push(req)
        }),
{
    let k = slot_index(v.scoped, id);
    lemma_slot_index_range(v.scoped, id);
    v.scoped.remove_ensures(k);
    let w = TableView { scoped: v.scoped.remove(k), ..v };
    assert forall|i: int| 0 <= i < w.scoped.len() implies !(
    #[trigger] w.scoped[i]).rule.matcher.holds(req, json) by {
        if i < k {
            assert(w.scoped[i] == v.scoped[i]);
        } else {
            assert(w.scoped[i] == v.scoped[i + 1]);
        }
    }
    lemma_last_match_none(w.scoped, req, json);
    lemma_last_match_range(v.global, req, json);
}

/// A rule that expects exactly `n` calls is satisfied after `n` calls and
/// violated after `n + 1` or `n - 1`.
pub proof fn law_exact_expectation(s: Slot, n: u64)
    requires
        s.rule.expectation == Some(Expectation { min: n, max: n }),
    ensures
        s.calls == n ==> !violated(s),
        s.calls == n + 1 || s.calls == n - 1 ==> violated(s) && violation_of(s) == (
        crate::table::Violation { rule: s.id, observed: s.calls, expected: Expectation { min: n, max: n } }),
{
}

proof fn lemma_violations_cover(slots: Seq<Slot>)
    ensures
        forall|i: int| 0 <= i < slots.len() && violated(#[trigger] slots[i]) ==> violations(slots).contains(
            violation_of(slots[i]),
        ),
        violations(slots).len() == 0 <==> forall|i: int| 0 <= i < slots.len() ==> !violated(#[trigger] slots[i]),
    decreases slots.len(),
{
    if slots.len() > 0 {
        let rest = slots.drop_last();
        lemma_violations_cover(rest);
        assert forall|i: int| 0 <= i < slots.len() && violated(#[trigger] slots[i]) implies violations(
            slots,
        ).contains(violation_of(slots[i])) by {
            if i < slots.len() - 1 {
                assert(rest[i] == slots[i]);
                let j = choose|j: int| 0 <= j < violations(rest).len() && violations(rest)[j] == violation_of(rest[i]);
                if violated(slots.last()) {
                    assert(violations(slots)[j] == violations(rest)[j]);
                }
            } else {
                let vs = violations(slots);
                assert(vs[vs.len() - 1] == violation_of(slots[i]));
            }
        }
        if forall|i: int| 0 <= i < slots.len() ==> !violated(#[trigger] slots[i]) {
            assert(!violated(slots[slots.len() - 1]));
            assert forall|i: int| 0 <= i < rest.len() implies !violated(#[trigger] rest[i]) by {
                assert(rest[i] == slots[i]);
            }
        }
        if violations(slots).len() == 0 {
            assert forall|i: int| 0 <= i < slots.len() implies !violated(#[trigger] slots[i]) by {
                if i < slots.len() - 1 {
                    assert(rest[i] == slots[i]);
                }
            }
        }
    }
}

/// Checking expectations succeeds exactly when no rule misses its
/// expectation, and otherwise reports every rule that does, by name.
pub proof fn law_verification_reports_each_rule(v: TableView)
    ensures
        all_violations(v).len() == 0 <==> (forall|i: int| 0 <= i < v.scoped.len() ==> !violated(#[trigger] v.scoped[i]))
            && (forall|i: int| 0 <= i < v.global.len() ==> !violated(#[trigger] v.global[i])),
        forall|i: int| 0 <= i < v.scoped.len() && violated(#[trigger] v.scoped[i]) ==> all_violations(v).contains(
            violation_of(v.scoped[i]),
        ),
        forall|i: int| 0 <= i < v.global.len() && violated(#[trigger] v.global[i]) ==> all_violations(v).contains(
            violation_of(v.global[i]),
        ),
{
    lemma_violations_cover(v.scoped);
    lemma_violations_cover(v.global);
    let a = violations(v.scoped);
    let b = violations(v.global);
    assert forall|i: int| 0 <= i < v.scoped.len() && violated(#[trigger] v.scoped[i]) implies all_violations(
        v,
    ).contains(violation_of(v.scoped[i])) by {
        let j = choose|j: int| 0 <= j < a.len() && a[j] == violation_of(v.scoped[i]);
        assert((a + b)[j] == a[j]);
    }
    assert forall|i: int| 0 <= i < v.global.len() && violated(#[trigger] v.global[i]) implies all_violations(
        v,
    ).contains(violation_of(v.global[i])) by {
        let j = choose|j: int| 0 <= j < b.len() && b[j] == violation_of(v.global[i]);
        assert((a + b)[a.len() + j] == b[j]);
    }
}

/// Routing never changes which rules are registered, so the same requests
/// pick the same rule throughout a run.
pub proof fn law_run_keeps_rules(v: TableView, reqs: Seq<Request>)
    ensures
        same_rules(run(v, reqs).scoped, v.scoped),
        same_rules(run(v, reqs).global, v.global),
        forall|req: Request, json: bool| #[trigger] pick(run(v, reqs), req, json) == pick(v, req, json),
    decreases reqs.len(),
{
    if reqs.len() > 0 {
        let prev = run(v, reqs.drop_last());
        law_run_keeps_rules(v, reqs.drop_last());
        lemma_step_keeps_rules(prev, reqs.last(), is_json(reqs.last().body@));
    }
    assert forall|req: Request, json: bool| #[trigger] pick(run(v, reqs), req, json) == pick(v, req, json) by {
        lemma_same_rules_match(run(v, reqs).scoped, v.scoped, req, json);
        lemma_same_rules_match(run(v, reqs).global, v.global, req, json);
    }
}

/// When every request of a run is answered by the same rule, that rule's
/// count grows by exactly the number of requests (short of its maximum);
/// when none is answered, the unmatched log grows by that number.
pub proof fn law_each_match_counted_once(v: TableView, reqs: Seq<Request>, p: Pick)
    requires
        pick_in_range(v, p),
        forall|i: int| 0 <= i < reqs.len() ==> pick(v, #[trigger] reqs[i], is_json(reqs[i].body@)) == p,
        !(p is NoMatch) ==> calls_at(v, p) + reqs.len() <= u64::MAX,
    ensures
        pick_in_range(run(v, reqs), p),
        calls_at(run(v, reqs), p) == calls_at(v, p) + reqs.len(),
    decreases reqs.len(),
{
    if reqs.len() > 0 {
        let rest = reqs.drop_last();
        let last = reqs.last();
        assert forall|i: int| 0 <= i < rest.len() implies pick(v, #[trigger] rest[i], is_json(rest[i].body@)) == p by {
            assert(rest[i] == reqs[i]);
        }
        law_each_match_counted_once(v, rest, p);
        let prev = run(v, rest);
        law_run_keeps_rules(v, rest);
        assert(pick(v, reqs[reqs.len() - 1], is_json(reqs[reqs.len() - 1].body@)) == p);
        assert(pick(prev, last, is_json(last.body@)) == p);
        lemma_step_keeps_rules(prev, last, is_json(last.body@));
    }
}

/// A request whose `Content-Length` header declares the single value `m`
/// passes the body-length header check exactly when `m` is the length of the
/// body received, whatever the client meant to send.
pub proof fn law_content_length_follows_body(req: Request, name: Vec<u8>, m: nat, json: bool)
    requires
        header_values(req.headers@, name@) == seq![decimal(m)],
    ensures
        Predicate::HeaderIsBodyLength(name).holds(req, json) <==> m == req.body@.len(),
{
    if Predicate::HeaderIsBodyLength(name).holds(req, json) {
        assert(seq![decimal(m)][0] == seq![decimal(req.body@.len())][0]);
        lemma_decimal_injective(m, req.body@.len());
    }
}

/// With only JSON-POST rules registered, a request that is not a POST, lacks
/// `Content-Type: application/json`, or has a malformed JSON body matches no
/// rule and gets the 404 fallback response, each failure on its own.
pub proof fn law_json_post_rejects(v: TableView, req: Request, json: bool)
    requires
        forall|i: int, r: Request, j: bool|
            0 <= i < v.scoped.len() ==> #[trigger] v.scoped[i].rule.matcher.holds(r, j) == json_post_accepts(r, j),
        forall|i: int, r: Request, j: bool|
            0 <= i < v.global.len() ==> #[trigger] v.global[i].rule.matcher.holds(r, j) == json_post_accepts(r, j),
        req.method@ != "POST".spec_bytes() || !has_header(
            req,
            "Content-Type".spec_bytes(),
            "application/json".spec_bytes(),
        ) || !json,
    ensures
        pick(v, req, json) == Pick::NoMatch,
        reply(v, req, json).status == 404,
{
    lemma_last_match_none(v.scoped, req, json);
    lemma_last_match_none(v.global, req, json);
}

/// The slot that a pick names.
pub open spec fn slot_at(v: TableView, p: Pick) -> Slot {
    match p {
        Pick::Scoped(i) => v.scoped[i],
        Pick::Global(i) => v.global[i],
        Pick::NoMatch => arbitrary(),
    }
}

/// A request answered by a rule that expects exactly `n` calls counts toward
/// it: it brings the rule to `n` calls and, when every other rule meets its
/// expectation, checking succeeds; it brings the rule to `n + 1` or `n - 1`
/// calls and checking reports that rule. The request is answered either way.
pub proof fn law_request_counts_toward_expectation(v: TableView, req: Request, json: bool, n: u64)
    requires
        !(pick(v, req, json) is NoMatch),
        slot_at(v, pick(v, req, json)).rule.expectation == Some(Expectation { min: n, max: n }),
        slot_at(v, pick(v, req, json)).calls < u64::MAX,
    ensures
        ({
            let p = pick(v, req, json);
            let old_slot = slot_at(v, p);
            let w = step(v, req, json);
            let new_slot = slot_at(w, p);
            &&& reply(v, req, json) == old_slot.rule.response@
            &&& new_slot.id == old_slot.id
            &&& new_slot.rule == old_slot.rule
            &&& new_slot.calls == old_slot.calls + 1
            &&& new_slot.calls == n ==> !violated(new_slot)
            &&& new_slot.calls == n && (forall|i: int|
                0 <= i < v.scoped.len() && p != Pick::Scoped(i) ==> !violated(#[trigger] v.scoped[i]))
                && (forall|i: int| 0 <= i < v.global.len() && p != Pick::Global(i) ==> !violated(
                #[trigger] v.global[i],
            )) ==> all_violations(w).len() == 0
            &&& new_slot.calls == n + 1 || new_slot.calls + 1 == n ==> violated(new_slot) && all_violations(
                w,
            ).contains(violation_of(new_slot)) && violation_of(new_slot) == (crate::table::Violation {
                rule: old_slot.id,
                observed: new_slot.calls,
                expected: Expectation { min: n, max: n },
            })
        }),
{
    let p = pick(v, req, json);
    let w = step(v, req, json);
    lemma_last_match_range(v.scoped, req, json);
    lemma_last_match_range(v.global, req, json);
    law_verification_reports_each_rule(w);
    let new_slot = slot_at(w, p);
    if new_slot.calls == n && (forall|i: int|
        0 <= i < v.scoped.len() && p != Pick::Scoped(i) ==> !violated(#[trigger] v.scoped[i]))
        && (forall|i: int| 0 <= i < v.global.len() && p != Pick::Global(i) ==> !violated(
        #[trigger] v.global[i],
    )) {
        assert forall|i: int| 0 <= i < w.scoped.len() implies !violated(#[trigger] w.scoped[i]) by {
            if p != Pick::Scoped(i) {
                assert(w.scoped[i] == v.scoped[i]);
            }
        }
        assert forall|i: int| 0 <= i < w.global.len() implies !violated(#[trigger] w.global[i]) by {
            if p != Pick::Global(i) {
                assert(w.global[i] == v.global[i]);
            }
        }
    }
    if new_slot.calls == n + 1 || new_slot.calls + 1 == n {
        match p {
            Pick::Scoped(i) => {
                assert(violated(w.scoped[i]));
            },
            Pick::Global(i) => {
                assert(violated(w.global[i]));
            },
            Pick::NoMatch => {},
        }
    }
}

} // verus!
