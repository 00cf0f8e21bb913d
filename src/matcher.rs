use vstd::prelude::*;
use vstd::string::{StrSliceExecFns, StringSliceAdditionalSpecFns};

use crate::bytes::{bytes_equal, decimal, equal_ignoring_case, format_decimal, same_ignoring_case};
use crate::request::{Header, Request};

verus! {

/// Whether serde_json accepts the bytes as one JSON document.
pub uninterp spec fn is_json(body: Seq<u8>) -> bool;

/// Relies on serde_json::from_slice into a serde_json::Value: it succeeds
/// exactly on a well-formed JSON document, and fails on empty input.
#[verifier::external_body]
fn body_is_json(body: &Vec<u8>) -> (r: bool)
    ensures
        r == is_json(body@),
        body@.len() == 0 ==> !r,
{
    serde_json::from_slice::<serde_json::Value>(body.as_slice()).is_ok()
}

/// Space or tab, what trimming removes from a visible-ASCII value.
pub open spec fn is_blank(b: u8) -> bool {
    b == 32 || b == 9
}

/// Every byte is a tab or printable ASCII.
pub open spec fn visible(v: Seq<u8>) -> bool {
    forall|i: int| 0 <= i < v.len() ==> (#[trigger] v[i] == 9 || 32 <= v[i] <= 126)
}

pub open spec fn trim_start(s: Seq<u8>) -> Seq<u8>
    decreases s.len(),
{
    if s.len() > 0 && is_blank(s[0]) {
        trim_start(s.drop_first())
    } else {
        s
    }
}

pub open spec fn trim_end(s: Seq<u8>) -> Seq<u8>
    decreases s.len(),
{
    if s.len() > 0 && is_blank(s.last()) {
        trim_end(s.drop_last())
    } else {
        s
    }
}

/// The bytes without leading and trailing blanks.
pub open spec fn trim(s: Seq<u8>) -> Seq<u8> {
    trim_end(trim_start(s))
}

/// The pieces of `v` between commas, in order; never empty.
pub open spec fn split_commas(v: Seq<u8>) -> Seq<Seq<u8>>
    decreases v.len(),
{
    if v.len() == 0 {
        seq![Seq::empty()]
    } else {
        let p = split_commas(v.drop_last());
        if v.last() == 44 {
            p.push(Seq::empty())
        } else {
            p.update(p.len() - 1, p.last().push(v.last()))
        }
    }
}

/// The views of a sequence of byte vectors.
pub open spec fn views(v: Seq<Vec<u8>>) -> Seq<Seq<u8>> {
    v.map_values(|x: Vec<u8>| x@)
}

/// The values of the header `name`: of every line with that name (without
/// ASCII case) whose value is visible ASCII, in order, each piece between
/// commas with its blanks trimmed.
pub open spec fn header_values(hs: Seq<Header>, name: Seq<u8>) -> Seq<Seq<u8>>
    decreases hs.len(),
{
    if hs.len() == 0 {
        Seq::empty()
    } else {
        let rest = header_values(hs.drop_last(), name);
        let h = hs.last();
        if same_ignoring_case(h.name@, name) && visible(h.value@) {
            rest + split_commas(h.value@).map_values(|p: Seq<u8>| trim(p))
        } else {
            rest
        }
    }
}

/// Whether the header `name` has exactly one value, and it is `value`.
pub open spec fn has_header(req: Request, name: Seq<u8>, value: Seq<u8>) -> bool {
    header_values(req.headers@, name) == seq![value]
}

pub proof fn lemma_split_nonempty(v: Seq<u8>)
    ensures
        split_commas(v).len() >= 1,
    decreases v.len(),
{
    if v.len() > 0 {
        lemma_split_nonempty(v.drop_last());
    }
}

fn is_blank_byte(b: u8) -> (r: bool)
    ensures
        r == is_blank(b),
{
    b == 32 || b == 9
}

fn is_visible(v: &Vec<u8>) -> (r: bool)
    ensures
        r == visible(v@),
{
    let mut i: usize = 0;
    while i < v.len()
        invariant
            i <= v@.len(),
            forall|j: int| 0 <= j < i ==> (#[trigger] v@[j] == 9 || 32 <= v@[j] <= 126),
        decreases v@.len() - i,
    {
        let b = v[i];
        if !(b == 9 || (32 <= b && b <= 126)) {
            return false;
        }
        i = i + 1;
    }
    true
}

fn copy_range(s: &Vec<u8>, a: usize, b: usize) -> (r: Vec<u8>)
    requires
        a <= b <= s@.len(),
    ensures
        r@ == s@.subrange(a as int, b as int),
{
    let mut r: Vec<u8> = Vec::new();
    let mut i: usize = a;
    while i < b
        invariant
            a <= i <= b,
            b <= s@.len(),
            r@ == s@.subrange(a as int, i as int),
        decreases b - i,
    {
        r.push(s[i]);
        i = i + 1;
        assert(r@ =~= s@.subrange(a as int, i as int));
    }
    r
}

fn trim_bytes(s: &Vec<u8>) -> (r: Vec<u8>)
    ensures
        r@ == trim(s@),
{
    let n = s.len();
    let mut a: usize = 0;
    assert(s@.subrange(0, n as int) =~= s@);
    while a < n && is_blank_byte(s[a])
        invariant
            a <= n == s@.len(),
            trim_start(s@) == trim_start(s@.subrange(a as int, n as int)),
        decreases n - a,
    {
        assert(s@.subrange(a as int, n as int).drop_first() =~= s@.subrange(a + 1, n as int));
        a = a + 1;
    }
    let mut b: usize = n;
    while b > a && is_blank_byte(s[b - 1])
        invariant
            a <= b <= n == s@.len(),
            trim(s@) == trim_end(s@.subrange(a as int, b as int)),
        decreases b,
    {
        assert(s@.subrange(a as int, b as int).drop_last() =~= s@.subrange(a as int, b - 1));
        b = b - 1;
    }
    copy_range(s, a, b)
}

/// Appends the trimmed comma-separated pieces of `value` to `out`.
fn push_pieces(value: &Vec<u8>, out: &mut Vec<Vec<u8>>)
    ensures
        views(final(out)@) == views(old(out)@) + split_commas(value@).map_values(|p: Seq<u8>| trim(p)),
{
    let mut raw: Vec<Vec<u8>> = Vec::new();
    let mut cur: Vec<u8> = Vec::new();
    let mut i: usize = 0;
    assert(value@.take(0) =~= Seq::<u8>::empty());
    assert(views(raw@).push(cur@) =~= split_commas(value@.take(0)));
    while i < value.len()
        invariant
            i <= value@.len(),
            views(raw@).push(cur@) == split_commas(value@.take(i as int)),
        decreases value@.len() - i,
    {
        let ghost prev = value@.take(i as int);
        assert(value@.take(i + 1).drop_last() =~= prev);
        assert(value@.take(i + 1).last() == value@[i as int]);
        proof {
            lemma_split_nonempty(prev);
        }
        if value[i] == 44u8 {
            raw.push(cur);
            cur = Vec::new();
            assert(views(raw@).push(cur@) =~= split_commas(prev).push(Seq::empty()));
        } else {
            cur.push(value[i]);
            assert(views(raw@).push(cur@) =~= split_commas(prev).update(
                split_commas(prev).len() - 1,
                split_commas(prev).last().push(value@[i as int]),
            ));
        }
        i = i + 1;
    }
    raw.push(cur);
    assert(value@.take(value@.len() as int) =~= value@);
    let ghost pieces = split_commas(value@);
    assert(views(raw@) =~= pieces);
    let ghost start = views(out@);
    let mut j: usize = 0;
    assert(start =~= start + pieces.take(0).map_values(|p: Seq<u8>| trim(p)));
    while j < raw.len()
        invariant
            j <= raw@.len(),
            views(raw@) == pieces,
            views(out@) == start + pieces.take(j as int).map_values(|p: Seq<u8>| trim(p)),
        decreases raw@.len() - j,
    {
        let t = trim_bytes(&raw[j]);
        let ghost before = views(out@);
        out.push(t);
        assert(pieces[j as int] == raw@[j as int]@);
        assert(views(out@) =~= before.push(trim(pieces[j as int])));
        assert(pieces.take(j + 1).map_values(|p: Seq<u8>| trim(p)) =~= pieces.take(j as int).map_values(
            |p: Seq<u8>| trim(p),
        ).push(trim(pieces[j as int])));
        assert(views(out@) =~= start + pieces.take(j + 1).map_values(|p: Seq<u8>| trim(p)));
        j = j + 1;
    }
    assert(pieces.take(raw@.len() as int) =~= pieces);
}

/// Collects the values of the header `name`.
pub fn values_of_header(req: &Request, name: &Vec<u8>) -> (r: Vec<Vec<u8>>)
    ensures
        views(r@) == header_values(req.headers@, name@),
{
    let mut out: Vec<Vec<u8>> = Vec::new();
    let mut i: usize = 0;
    let ghost hs = req.headers@;
    assert(hs.take(0) =~= Seq::<Header>::empty());
    assert(views(out@) =~= Seq::<Seq<u8>>::empty());
    while i < req.headers.len()
        invariant
            i <= hs.len(),
            hs == req.headers@,
            views(out@) == header_values(hs.take(i as int), name@),
        decreases hs.len() - i,
    {
        assert(hs.take(i + 1).drop_last() =~= hs.take(i as int));
        assert(hs.take(i + 1).last() == hs[i as int]);
        let h = &req.headers[i];
        if equal_ignoring_case(&h.name, name) && is_visible(&h.value) {
            push_pieces(&h.value, &mut out);
        }
        i = i + 1;
    }
    assert(hs.take(hs.len() as int) =~= hs);
    out
}

fn find_header(req: &Request, name: &Vec<u8>, value: &Vec<u8>) -> (r: bool)
    ensures
        r == has_header(*req, name@, value@),
{
    let vals = values_of_header(req, name);
    if vals.len() != 1 {
        assert(views(vals@).len() != 1);
        return false;
    }
    let r = bytes_equal(&vals[0], value);
    assert(views(vals@)[0] == vals@[0]@);
    if r {
        assert(views(vals@) =~= seq![value@]);
    }
    r
}

/// One condition on a request.
pub enum Predicate {
    /// The method equals the given token exactly.
    MethodIs(Vec<u8>),
    /// The target path equals the given bytes exactly, before any decoding.
    PathIs(Vec<u8>),
    /// The header with this name has exactly one value, this one.
    HeaderIs(Vec<u8>, Vec<u8>),
    /// The header with this name has exactly one value, the decimal length
    /// of the request's own body as the server received it.
    HeaderIsBodyLength(Vec<u8>),
    /// The raw body equals the given bytes.
    BodyIs(Vec<u8>),
    /// The body is a well-formed JSON document.
    BodyIsJson,
}

impl Predicate {
    /// Whether the predicate accepts `req`, where `json` tells whether the
    /// body is well-formed JSON.
    pub open spec fn holds(&self, req: Request, json: bool) -> bool {
        match self {
            Predicate::MethodIs(m) => req.method@ == m@,
            Predicate::PathIs(p) => req.path@ == p@,
            Predicate::HeaderIs(n, v) => has_header(req, n@, v@),
            Predicate::HeaderIsBodyLength(n) => has_header(req, n@, decimal(req.body@.len())),
            Predicate::BodyIs(b) => req.body@ == b@,
            Predicate::BodyIsJson => json,
        }
    }

    /// Evaluates the predicate, taking the body's JSON well-formedness as given.
    pub fn evaluate_given(&self, req: &Request, json: bool) -> (r: bool)
        ensures
            r == self.holds(*req, json),
    {
        match self {
            Predicate::MethodIs(m) => bytes_equal(&req.method, m),
            Predicate::PathIs(p) => bytes_equal(&req.path, p),
            Predicate::HeaderIs(n, v) => find_header(req, n, v),
            Predicate::HeaderIsBodyLength(n) => {
                let len = format_decimal(req.body.len() as u64);
                find_header(req, n, &len)
            },
            Predicate::BodyIs(b) => bytes_equal(&req.body, b),
            Predicate::BodyIsJson => json,
        }
    }

    /// Evaluates the predicate; the body is parsed only by `BodyIsJson`.
    pub fn evaluate(&self, req: &Request) -> (r: bool)
        ensures
            r == self.holds(*req, is_json(req.body@)),
    {
        match self {
            Predicate::BodyIsJson => body_is_json(&req.body),
            _ => self.evaluate_given(req, false),
        }
    }
}

/// The conjunction of its predicates; with none it accepts every request.
pub struct Matcher {
    pub all: Vec<Predicate>,
}

impl Matcher {
    pub open spec fn holds(&self, req: Request, json: bool) -> bool {
        forall|i: int| 0 <= i < self.all@.len() ==> (#[trigger] self.all@[i]).holds(req, json)
    }

    /// A matcher that accepts every request.
    pub fn any() -> (r: Matcher)
        ensures
            r.all@.len() == 0,
            forall|req: Request, json: bool| r.holds(req, json),
    {
        Matcher { all: Vec::new() }
    }

    /// Adds one more predicate to the conjunction.
    pub fn and(self, p: Predicate) -> (r: Matcher)
        ensures
            r.all@ == self.all@.push(p),
            forall|req: Request, json: bool|
                r.holds(req, json) == (self.holds(req, json) && p.holds(req, json)),
    {
        let mut m = self;
        m.all.push(p);
        proof {
            assert forall|req: Request, json: bool|
                m.holds(req, json) == (self.holds(req, json) && p.holds(req, json)) by {
                if self.holds(req, json) && p.holds(req, json) {
                    assert forall|i: int| 0 <= i < m.all@.len() implies (
                    #[trigger] m.all@[i]).holds(req, json) by {
                        if i < self.all@.len() {
                            assert(m.all@[i] == self.all@[i]);
                        }
                    }
                }
                if m.holds(req, json) {
                    assert(m.all@[self.all@.len() as int] == p);
                    assert forall|i: int| 0 <= i < self.all@.len() implies (
                    #[trigger] self.all@[i]).holds(req, json) by {
                        assert(m.all@[i] == self.all@[i]);
                    }
                }
            }
        }
        m
    }

    /// Evaluates the predicates in order, stopping at the first that fails,
    /// taking the body's JSON well-formedness as given.
    pub fn matches_given(&self, req: &Request, json: bool) -> (r: bool)
        ensures
            r == self.holds(*req, json),
    {
        let mut i: usize = 0;
        while i < self.all.len()
            invariant
                i <= self.all@.len(),
                forall|j: int| 0 <= j < i ==> (#[trigger] self.all@[j]).holds(*req, json),
            decreases self.all@.len() - i,
        {
            if !self.all[i].evaluate_given(req, json) {
                return false;
            }
            i = i + 1;
        }
        true
    }

    /// Evaluates the predicates in order, stopping at the first that fails;
    /// the body is parsed as JSON only if a `BodyIsJson` predicate is reached.
    pub fn matches(&self, req: &Request) -> (r: bool)
        ensures
            r == self.holds(*req, is_json(req.body@)),
    {
        let mut i: usize = 0;
        while i < self.all.len()
            invariant
                i <= self.all@.len(),
                forall|j: int|
                    0 <= j < i ==> (#[trigger] self.all@[j]).holds(*req, is_json(req.body@)),
            decreases self.all@.len() - i,
        {
            if !self.all[i].evaluate(req) {
                return false;
            }
            i = i + 1;
        }
        true
    }
}

/// What `well_formed_json` accepts.
pub open spec fn json_post_accepts(req: Request, json: bool) -> bool {
    &&& req.method@ == "POST".spec_bytes()
    &&& has_header(req, "Content-Type".spec_bytes(), "application/json".spec_bytes())
    &&& json
    &&& has_header(req, "Content-Length".spec_bytes(), decimal(req.body@.len()))
}

/// Accepts a POST whose `Content-Type` is `application/json`, whose body is
/// well-formed JSON, and whose `Content-Length` equals the length of the body
/// actually received. The predicates run in that order.
pub fn well_formed_json() -> (r: Matcher)
    ensures
        forall|req: Request, json: bool| r.holds(req, json) == json_post_accepts(req, json),
{
    Matcher::any().and(Predicate::MethodIs("POST".as_bytes_vec())).and(
        Predicate::HeaderIs("Content-Type".as_bytes_vec(), "application/json".as_bytes_vec()),
    ).and(Predicate::BodyIsJson).and(Predicate::HeaderIsBodyLength("Content-Length".as_bytes_vec()))
}

} // verus!
