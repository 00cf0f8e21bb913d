use vstd::prelude::*;

use crate::matcher::{is_json, Matcher};
use crate::request::{fallback_response, fallback_view, Request, ResponseTemplate, ResponseView};

verus! {

/// The identity of a registered rule, unique within one table.
#[derive(Clone, Copy, PartialEq, Eq, Debug, Structural)]
pub struct RuleId(pub u64);

/// An inclusive range of expected call counts.
#[derive(Clone, Copy, PartialEq, Eq, Debug, Structural)]
pub struct Expectation {
    pub min: u64,
    pub max: u64,
}

impl Expectation {
    /// Exactly `n` calls.
    pub fn exactly(n: u64) -> (r: Expectation)
        ensures
            r == (Expectation { min: n, max: n }),
    {
        Expectation { min: n, max: n }
    }

    pub open spec fn admits(self, calls: u64) -> bool {
        self.min <= calls <= self.max
    }
}

/// A rule whose observed call count fell outside its expectation.
#[derive(Clone, Copy, PartialEq, Eq, Debug, Structural)]
pub struct Violation {
    pub rule: RuleId,
    pub observed: u64,
    pub expected: Expectation,
}

/// A matcher bound to a canned response, with an optional expectation on how
/// many requests it answers.
pub struct Rule {
    pub matcher: Matcher,
    pub response: ResponseTemplate,
    pub expectation: Option<Expectation>,
}

impl Rule {
    pub fn new(matcher: Matcher, response: ResponseTemplate) -> (r: Rule)
        ensures
            r == (Rule { matcher, response, expectation: None }),
    {
        Rule { matcher, response, expectation: None }
    }

    /// Expects between `min` and `max` calls, both inclusive.
    pub fn expect(self, min: u64, max: u64) -> (r: Rule)
        ensures
            r == (Rule { expectation: Some(Expectation { min, max }), ..self }),
    {
        Rule { expectation: Some(Expectation { min, max }), ..self }
    }

    /// Expects exactly `n` calls.
    pub fn times(self, n: u64) -> (r: Rule)
        ensures
            r == (Rule { expectation: Some(Expectation { min: n, max: n }), ..self }),
    {
        Rule { expectation: Some(Expectation::exactly(n)), ..self }
    }
}

/// A registered rule with its identity and its observed call count.
pub struct Slot {
    pub id: RuleId,
    pub rule: Rule,
    pub calls: u64,
}

/// The handle of a scoped rule; releasing it removes exactly that rule.
pub struct ScopeGuard {
    id: RuleId,
}

impl ScopeGuard {
    pub closed spec fn spec_id(&self) -> RuleId {
        self.id
    }

    pub fn id(&self) -> (r: RuleId)
        ensures
            r == self.spec_id(),
    {
        self.id
    }
}

/// The abstract state of a table.
pub struct TableView {
    pub scoped: Seq<Slot>,
    pub global: Seq<Slot>,
    pub unmatched: Seq<Request>,
    pub next_id: u64,
}

pub open spec fn ids_distinct(s: Seq<Slot>) -> bool {
    forall|i: int, j: int| 0 <= i < j < s.len() ==> (#[trigger] s[i]).id != (#[trigger] s[j]).id
}

pub open spec fn ids_below(s: Seq<Slot>, n: u64) -> bool {
    forall|i: int| 0 <= i < s.len() ==> (#[trigger] s[i]).id.0 < n
}

impl TableView {
    /// Identities are distinct over both partitions and below the next one.
    pub open spec fn wf(self) -> bool {
        &&& ids_distinct(self.scoped)
        &&& ids_distinct(self.global)
        &&& ids_below(self.scoped, self.next_id)
        &&& ids_below(self.global, self.next_id)
        &&& forall|i: int, j: int|
            0 <= i < self.scoped.len() && 0 <= j < self.global.len() ==> (#[trigger] self.scoped[i]).id
                != (#[trigger] self.global[j]).id
    }
}

/// The index of the most recently registered slot whose matcher accepts
/// `req`, or -1.
pub open spec fn last_match(slots: Seq<Slot>, req: Request, json: bool) -> int
    decreases slots.len(),
{
    if slots.len() == 0 {
        -1
    } else if slots.last().rule.matcher.holds(req, json) {
        slots.len() - 1
    } else {
        last_match(slots.drop_last(), req, json)
    }
}

/// The index of the last slot with identity `id`, or -1.
pub open spec fn slot_index(slots: Seq<Slot>, id: RuleId) -> int
    decreases slots.len(),
{
    if slots.len() == 0 {
        -1
    } else if slots.last().id == id {
        slots.len() - 1
    } else {
        slot_index(slots.drop_last(), id)
    }
}

/// Which rule answers a request.
pub enum Pick {
    Scoped(int),
    Global(int),
    NoMatch,
}

/// Scoped rules first, then global ones; most recent first within each.
pub open spec fn pick(v: TableView, req: Request, json: bool) -> Pick {
    let s = last_match(v.scoped, req, json);
    let g = last_match(v.global, req, json);
    if s >= 0 {
        Pick::Scoped(s)
    } else if g >= 0 {
        Pick::Global(g)
    } else {
        Pick::NoMatch
    }
}

/// The slot with one more observed call; the count stops at its maximum.
pub open spec fn bump(s: Slot) -> Slot {
    Slot {
        calls: if s.calls < u64::MAX {
            (s.calls + 1) as u64
        } else {
            s.calls
        },
        ..s
    }
}

/// The state after routing `req`.
pub open spec fn step(v: TableView, req: Request, json: bool) -> TableView {
    match pick(v, req, json) {
        Pick::Scoped(i) => TableView { scoped: v.scoped.update(i, bump(v.scoped[i])), ..v },
        Pick::Global(i) => TableView { global: v.global.update(i, bump(v.global[i])), ..v },
        Pick::NoMatch => TableView { unmatched: v.unmatched.push(req), ..v },
    }
}

/// The response given to `req`.
pub open spec fn reply(v: TableView, req: Request, json: bool) -> ResponseView {
    match pick(v, req, json) {
        Pick::Scoped(i) => v.scoped[i].rule.response@,
        Pick::Global(i) => v.global[i].rule.response@,
        Pick::NoMatch => fallback_view(),
    }
}

pub open spec fn violated(s: Slot) -> bool {
    match s.rule.expectation {
        Some(e) => !e.admits(s.calls),
        None => false,
    }
}

pub open spec fn violation_of(s: Slot) -> Violation {
    Violation { rule: s.id, observed: s.calls, expected: s.rule.expectation.unwrap() }
}

/// The violations of the slots, in their order.
pub open spec fn violations(slots: Seq<Slot>) -> Seq<Violation>
    decreases slots.len(),
{
    if slots.len() == 0 {
        Seq::empty()
    } else if violated(slots.last()) {
        violations(slots.drop_last()).push(violation_of(slots.last()))
    } else {
        violations(slots.drop_last())
    }
}

/// All violations: scoped rules first, then global ones.
pub open spec fn all_violations(v: TableView) -> Seq<Violation> {
    violations(v.scoped) + violations(v.global)
}

/// The registration table and router of a mock server.
pub struct MockTable {
    scoped: Vec<Slot>,
    global: Vec<Slot>,
    unmatched: Vec<Request>,
    next_id: u64,
}

impl View for MockTable {
    type V = TableView;

    closed spec fn view(&self) -> TableView {
        TableView {
            scoped: self.scoped@,
            global: self.global@,
            unmatched: self.unmatched@,
            next_id: self.next_id,
        }
    }
}

fn find_last_match(slots: &Vec<Slot>, req: &Request, json: bool) -> (r: Option<usize>)
    ensures
        match r {
            Some(i) => i as int == last_match(slots@, *req, json),
            None => last_match(slots@, *req, json) == -1,
        },
{
    let mut i: usize = slots.len();
    assert(slots@.take(i as int) =~= slots@);
    while i > 0
        invariant
            i <= slots@.len(),
            last_match(slots@, *req, json) == last_match(slots@.take(i as int), *req, json),
        decreases i,
    {
        assert(slots@.take(i as int).last() == slots@[i - 1]);
        if slots[i - 1].rule.matcher.matches_given(req, json) {
            return Some(i - 1);
        }
        assert(slots@.take(i as int).drop_last() =~= slots@.take(i - 1));
        i = i - 1;
    }
    None
}

fn find_last_match_parsing(slots: &Vec<Slot>, req: &Request) -> (r: Option<usize>)
    ensures
        match r {
            Some(i) => i as int == last_match(slots@, *req, is_json(req.body@)),
            None => last_match(slots@, *req, is_json(req.body@)) == -1,
        },
{
    let mut i: usize = slots.len();
    assert(slots@.take(i as int) =~= slots@);
    while i > 0
        invariant
            i <= slots@.len(),
            last_match(slots@, *req, is_json(req.body@)) == last_match(slots@.take(i as int), *req, is_json(req.body@)),
        decreases i,
    {
        assert(slots@.take(i as int).last() == slots@[i - 1]);
        if slots[i - 1].rule.matcher.matches(req) {
            return Some(i - 1);
        }
        assert(slots@.take(i as int).drop_last() =~= slots@.take(i - 1));
        i = i - 1;
    }
    None
}

fn find_id(slots: &Vec<Slot>, id: RuleId) -> (r: Option<usize>)
    ensures
        match r {
            Some(i) => i as int == slot_index(slots@, id),
            None => slot_index(slots@, id) == -1,
        },
{
    let mut i: usize = slots.len();
    assert(slots@.take(i as int) =~= slots@);
    while i > 0
        invariant
            i <= slots@.len(),
            slot_index(slots@, id) == slot_index(slots@.take(i as int), id),
        decreases i,
    {
        assert(slots@.take(i as int).last() == slots@[i - 1]);
        if slots[i - 1].id == id {
            return Some(i - 1);
        }
        assert(slots@.take(i as int).drop_last() =~= slots@.take(i - 1));
        i = i - 1;
    }
    None
}

pub proof fn lemma_last_match_range(slots: Seq<Slot>, req: Request, json: bool)
    ensures
        -1 <= last_match(slots, req, json) < slots.len(),
        last_match(slots, req, json) >= 0 ==> slots[last_match(slots, req, json)].rule.matcher.holds(
            req,
            json,
        ),
    decreases slots.len(),
{
    if slots.len() > 0 {
        lemma_last_match_range(slots.drop_last(), req, json);
    }
}

pub proof fn lemma_slot_index_range(slots: Seq<Slot>, id: RuleId)
    ensures
        -1 <= slot_index(slots, id) < slots.len(),
        slot_index(slots, id) >= 0 ==> slots[slot_index(slots, id)].id == id,
        slot_index(slots, id) == -1 ==> forall|i: int| 0 <= i < slots.len() ==> (#[trigger] slots[i]).id != id,
    decreases slots.len(),
{
    if slots.len() > 0 {
        lemma_slot_index_range(slots.drop_last(), id);
        assert forall|i: int| 0 <= i < slots.len() - 1 implies slots.drop_last()[i] == slots[i] by {}
    }
}

fn collect_violations(slots: &Vec<Slot>, out: &mut Vec<Violation>)
    ensures
        final(out)@ == old(out)@ + violations(slots@),
{
    let ghost start = out@;
    let mut i: usize = 0;
    assert(slots@.take(0) =~= Seq::<Slot>::empty());
    assert(out@ =~= start + violations(slots@.take(0)));
    while i < slots.len()
        invariant
            i <= slots@.len(),
            out@ == start + violations(slots@.take(i as int)),
        decreases slots@.len() - i,
    {
        let s = &slots[i];
        assert(slots@.take(i + 1).drop_last() =~= slots@.take(i as int));
        assert(slots@.take(i + 1).last() == slots@[i as int]);
        match s.rule.expectation {
            Some(e) => {
                if s.calls < e.min || s.calls > e.max {
                    out.push(Violation { rule: s.id, observed: s.calls, expected: e });
                    assert(out@ =~= start + violations(slots@.take(i + 1)));
                }
            },
            None => {},
        }
        i = i + 1;
    }
    assert(slots@.take(slots@.len() as int) =~= slots@);
}

impl MockTable {
    /// An empty table.
    pub fn new() -> (r: MockTable)
        ensures
            r@ == (TableView {
                scoped: Seq::empty(),
                global: Seq::empty(),
                unmatched: Seq::empty(),
                next_id: 0,
            }),
            r@.wf(),
    {
        let r = MockTable { scoped: Vec::new(), global: Vec::new(), unmatched: Vec::new(), next_id: 0 };
        assert(r@.scoped =~= Seq::empty());
        assert(r@.global =~= Seq::empty());
        assert(r@.unmatched =~= Seq::empty());
        r
    }

    /// Whether another rule can still be given a fresh identity.
    pub fn can_register(&self) -> (r: bool)
        ensures
            r == (self@.next_id < u64::MAX),
    {
        self.next_id < u64::MAX
    }

    /// Adds a rule after all global rules; it stays until deregistered.
    pub fn register_global(&mut self, rule: Rule) -> (r: RuleId)
        requires
            old(self)@.wf(),
            old(self)@.next_id < u64::MAX,
        ensures
            final(self)@.wf(),
            r == RuleId(old(self)@.next_id),
            final(self)@ == (TableView {
                global: old(self)@.global.push(Slot { id: r, rule, calls: 0 }),
                next_id: (old(self)@.next_id + 1) as u64,
                ..old(self)@
            }),
    {
        let id = RuleId(self.next_id);
        self.global.push(Slot { id, rule, calls: 0 });
        self.next_id = self.next_id + 1;
        id
    }

    /// Adds a rule after all scoped rules, ahead of every global rule, and
    /// returns the guard that removes it.
    pub fn register_scoped(&mut self, rule: Rule) -> (r: ScopeGuard)
        requires
            old(self)@.wf(),
            old(self)@.next_id < u64::MAX,
        ensures
            final(self)@.wf(),
            r.spec_id() == RuleId(old(self)@.next_id),
            final(self)@ == (TableView {
                scoped: old(self)@.scoped.push(Slot { id: r.spec_id(), rule, calls: 0 }),
                next_id: (old(self)@.next_id + 1) as u64,
                ..old(self)@
            }),
    {
        let id = RuleId(self.next_id);
        self.scoped.push(Slot { id, rule, calls: 0 });
        self.next_id = self.next_id + 1;
        ScopeGuard { id }
    }

    /// Answers `req` once the matching scoped slot `s` and, when there is
    /// none, the matching global slot `g` are known.
    fn settle(&mut self, req: Request, json: Ghost<bool>, s: Option<usize>, g: Option<usize>) -> (r: ResponseTemplate)
        requires
            old(self)@.wf(),
            match s {
                Some(i) => i as int == last_match(old(self)@.scoped, req, json@),
                None => last_match(old(self)@.scoped, req, json@) == -1 && match g {
                    Some(i) => i as int == last_match(old(self)@.global, req, json@),
                    None => last_match(old(self)@.global, req, json@) == -1,
                },
            },
        ensures
            final(self)@.wf(),
            final(self)@ == step(old(self)@, req, json@),
            r@ == reply(old(self)@, req, json@),
    {
        proof {
            lemma_last_match_range(self.scoped@, req, json@);
            lemma_last_match_range(self.global@, req, json@);
        }
        match s {
            Some(i) => {
                let c = self.scoped[i].calls;
                self.scoped[i].calls = if c < u64::MAX { c + 1 } else { c };
                assert(self.scoped@ =~= old(self).scoped@.update(i as int, bump(old(self).scoped@[i as int])));
                self.scoped[i].rule.response.duplicate()
            },
            None => match g {
                Some(i) => {
                    let c = self.global[i].calls;
                    self.global[i].calls = if c < u64::MAX { c + 1 } else { c };
                    assert(self.global@ =~= old(self).global@.update(i as int, bump(old(self).global@[i as int])));
                    self.global[i].rule.response.duplicate()
                },
                None => {
                    self.unmatched.push(req);
                    fallback_response()
                },
            },
        }
    }

    /// Routes `req`, taking the body's JSON well-formedness as given: the most
    /// recent matching scoped rule answers, else the most recent matching
    /// global rule, and its call count goes up by one; else the fallback
    /// response is given and `req` is logged as unmatched.
    pub fn handle_given(&mut self, req: Request, json: bool) -> (r: ResponseTemplate)
        requires
            old(self)@.wf(),
        ensures
            final(self)@.wf(),
            final(self)@ == step(old(self)@, req, json),
            r@ == reply(old(self)@, req, json),
    {
        let s = find_last_match(&self.scoped, &req, json);
        let g = match s {
            Some(_) => None,
            None => find_last_match(&self.global, &req, json),
        };
        self.settle(req, Ghost(json), s, g)
    }

    /// Routes `req` as `handle_given` does; the body is parsed as JSON only
    /// when a rule reaches a `BodyIsJson` predicate.
    pub fn handle(&mut self, req: Request) -> (r: ResponseTemplate)
        requires
            old(self)@.wf(),
        ensures
            final(self)@.wf(),
            final(self)@ == step(old(self)@, req, is_json(req.body@)),
            r@ == reply(old(self)@, req, is_json(req.body@)),
    {
        let s = find_last_match_parsing(&self.scoped, &req);
        let g = match s {
            Some(_) => None,
            None => find_last_match_parsing(&self.global, &req),
        };
        self.settle(req, Ghost(is_json(req.body@)), s, g)
    }

    /// Removes the guard's rule, wherever it stands among the scoped rules,
    /// and reports a violation if its call count misses its expectation.
    pub fn release(&mut self, guard: ScopeGuard) -> (r: Result<(), Violation>)
        requires
            old(self)@.wf(),
        ensures
            final(self)@.wf(),
            ({
                let k = slot_index(old(self)@.scoped, guard.spec_id());
                if k >= 0 {
                    &&& final(self)@ == (TableView { scoped: old(self)@.scoped.remove(k), ..old(self)@ })
                    &&& r == if violated(old(self)@.scoped[k]) {
                        Err::<(), Violation>(violation_of(old(self)@.scoped[k]))
                    } else {
                        Ok::<(), Violation>(())
                    }
                } else {
                    final(self)@ == old(self)@ && r == Ok::<(), Violation>(())
                }
            }),
    {
        proof {
            lemma_slot_index_range(self.scoped@, guard.id);
        }
        match find_id(&self.scoped, guard.id) {
            Some(k) => {
                let ghost before = self.scoped@;
                let slot = self.scoped.remove(k);
                proof {
                    before.remove_ensures(k as int);
                }
                match slot.rule.expectation {
                    Some(e) => {
                        if slot.calls < e.min || slot.calls > e.max {
                            Err(Violation { rule: slot.id, observed: slot.calls, expected: e })
                        } else {
                            Ok(())
                        }
                    },
                    None => Ok(()),
                }
            },
            None => Ok(()),
        }
    }

    /// Removes the global rule `id`; returns whether there was one.
    pub fn deregister(&mut self, id: RuleId) -> (r: bool)
        requires
            old(self)@.wf(),
        ensures
            final(self)@.wf(),
            ({
                let k = slot_index(old(self)@.global, id);
                if k >= 0 {
                    r && final(self)@ == (TableView { global: old(self)@.global.remove(k), ..old(self)@ })
                } else {
                    !r && final(self)@ == old(self)@
                }
            }),
    {
        proof {
            lemma_slot_index_range(self.global@, id);
        }
        match find_id(&self.global, id) {
            Some(k) => {
                let ghost before = self.global@;
                self.global.remove(k);
                proof {
                    before.remove_ensures(k as int);
                }
                true
            },
            None => false,
        }
    }

    /// Checks every rule that carries an expectation and reports all that
    /// miss it, scoped rules first, each partition in registration order.
    pub fn verify_expectations(&self) -> (r: Result<(), Vec<Violation>>)
        ensures
            match r {
                Ok(()) => all_violations(self@).len() == 0,
                Err(vs) => vs@ == all_violations(self@) && vs@.len() > 0,
            },
    {
        let mut out: Vec<Violation> = Vec::new();
        collect_violations(&self.scoped, &mut out);
        collect_violations(&self.global, &mut out);
        assert(out@ =~= all_violations(self@));
        if out.len() == 0 {
            Ok(())
        } else {
            Err(out)
        }
    }

    /// The requests that no rule matched, oldest first.
    pub fn unmatched_requests(&self) -> (r: &Vec<Request>)
        ensures
            r@ == self@.unmatched,
    {
        &self.unmatched
    }

    /// The observed call count of rule `id`, if it is registered.
    pub fn call_count(&self, id: RuleId) -> (r: Option<u64>)
        ensures
            ({
                let s = slot_index(self@.scoped, id);
                let g = slot_index(self@.global, id);
                if s >= 0 {
                    r == Some(self@.scoped[s].calls)
                } else if g >= 0 {
                    r == Some(self@.global[g].calls)
                } else {
                    r is None
                }
            }),
    {
        proof {
            lemma_slot_index_range(self.scoped@, id);
            lemma_slot_index_range(self.global@, id);
        }
        match find_id(&self.scoped, id) {
            Some(k) => Some(self.scoped[k].calls),
            None => match find_id(&self.global, id) {
                Some(k) => Some(self.global[k].calls),
                None => None,
            },
        }
    }
}

} // verus!
