//! The decisions of the server loop: which port to bind, what a connection's
//! request leads to, and the order in which workers take queued jobs.
use vstd::prelude::*;
use vstd::string::StringExecFns;
use crate::error::RequestError;
use crate::request::{map_queries_post, Request};
use crate::response::{content_type_header, default_content_type, Response};
use crate::router::{resolve, route_method_of, Router};
use crate::text::debug_text;
use crate::validation::{bind, errors_for, validation_error_name};

verus! {

/// The first port the server tries.
pub const FIRST_PORT: u16 = 8080;

/// The last port the server tries.
pub const LAST_PORT: u16 = 8090;

/// The ports already bound by this process.
pub struct PortRegistry {
    used: Vec<u16>,
}

impl View for PortRegistry {
    type V = Set<u16>;

    closed spec fn view(&self) -> Set<u16> {
        self.used@.to_set()
    }
}

/// Whether every port of the range from `from` to the last one is used.
pub open spec fn all_used_from(used: Set<u16>, from: int) -> bool {
    forall|q: u16| from <= q <= LAST_PORT ==> used.contains(q)
}

impl PortRegistry {
    /// A registry with no port used.
    pub fn new() -> (r: PortRegistry)
        ensures
            r@ == Set::<u16>::empty(),
    {
        let r = PortRegistry { used: Vec::new() };
        assert(r@ =~= Set::<u16>::empty());
        r
    }

    /// Records that `port` is bound.
    pub fn mark_used(&mut self, port: u16)
        ensures
            final(self)@ == old(self)@.insert(port),
    {
        let ghost before = self.used@;
        self.used.push(port);
        assert(self.used@.to_set() =~= before.to_set().insert(port)) by {
            assert forall|p: u16| #[trigger] self.used@.to_set().contains(p) == before.to_set().insert(port).contains(p) by {
                if p == port {
                    assert(self.used@[before.len() as int] == port);
                } else if before.contains(p) {
                    let k = choose|k: int| 0 <= k < before.len() && before[k] == p;
                    assert(self.used@[k] == p);
                }
            };
        };
    }

    /// Whether `port` is recorded as bound.
    pub fn is_used(&self, port: u16) -> (r: bool)
        ensures
            r == self@.contains(port),
    {
        let mut i: usize = 0;
        while i < self.used.len()
            invariant
                i <= self.used.len(),
                forall|k: int| 0 <= k < i ==> self.used@[k] != port,
            decreases self.used.len() - i,
        {
            if self.used[i] == port {
                assert(self.used@.contains(port));
                return true;
            }
            i += 1;
        }
        false
    }

    /// The first port of the range, at or after `from`, that is not used;
    /// `None` exactly when every one of them is.
    pub fn next_free_port(&self, from: u16) -> (r: Option<u16>)
        ensures
            match r {
                Some(p) => FIRST_PORT <= p <= LAST_PORT && from <= p && !self@.contains(p)
                    && forall|q: u16| from <= q < p && FIRST_PORT <= q ==> self@.contains(q),
                None => all_used_from(self@, if from < FIRST_PORT {
                    FIRST_PORT as int
                } else {
                    from as int
                }),
            },
    {
        let start: u16 = if from < FIRST_PORT {
            FIRST_PORT
        } else {
            from
        };
        if start > LAST_PORT {
            return None;
        }
        let mut p: u16 = start;
        while p <= LAST_PORT
            invariant
                start <= p <= LAST_PORT + 1,
                FIRST_PORT <= start,
                from <= start,
                start == (if from < FIRST_PORT {
                    FIRST_PORT
                } else {
                    from
                }),
                forall|q: u16| start <= q < p ==> self@.contains(q),
            decreases LAST_PORT + 1 - p,
        {
            if !self.is_used(p) {
                return Some(p);
            }
            p += 1;
        }
        None
    }
}

impl PortRegistry {
    /// The next port to try binding, given the port whose binding just
    /// failed (`None` before the first try): the first unused port of the
    /// range after it, so that the unused ports are tried in increasing
    /// order, each once, and the tries stop after the last port.
    pub fn next_port_to_try(&self, failed: Option<u16>) -> (r: Option<u16>)
        ensures
            ({
                let start = match failed {
                    None => FIRST_PORT as int,
                    Some(p) => p + 1,
                };
                match r {
                    Some(q) => FIRST_PORT <= q <= LAST_PORT && start <= q && !self@.contains(q)
                        && forall|x: u16| start <= x < q && FIRST_PORT <= x ==> self@.contains(x),
                    None => all_used_from(self@, if start < FIRST_PORT {
                        FIRST_PORT as int
                    } else {
                        start
                    }),
                }
            }),
    {
        match failed {
            None => self.next_free_port(FIRST_PORT),
            Some(p) => {
                if p >= LAST_PORT {
                    None
                } else {
                    self.next_free_port(p + 1)
                }
            },
        }
    }
}

/// When every port of the range is used, no port is offered, whatever the
/// starting point.
pub proof fn lemma_no_port_when_all_used(used: Set<u16>, from: u16)
    requires
        forall|q: u16| FIRST_PORT <= q <= LAST_PORT ==> used.contains(q),
    ensures
        all_used_from(
            used,
            if from < FIRST_PORT {
                FIRST_PORT as int
            } else {
                from as int
            },
        ),
{
}

/// The message of the failure to find a port.
pub fn no_port_error() -> (r: String)
    ensures
        r@ == "No port is available in this range [8080, 8091]"@,
{
    String::from_str("No port is available in this range [8080, 8091]")
}

/// What a connection's request leads to.
pub enum Outcome<'a, H> {
    /// A response to write as it is.
    Reply(Response),
    /// The query string broke the route's schema: a 400 with the error.
    Reject(RequestError),
    /// The request, bound, for the route's handler.
    Handle(Request, &'a H),
}

/// The headers of a plain-text reply: the content type alone.
pub open spec fn plain_text_headers() -> Map<Seq<char>, Seq<char>> {
    Map::<Seq<char>, Seq<char>>::empty().insert(content_type_header(), default_content_type())
}

/// A plain-text response with `status` and `text`.
fn text_response(status: usize, text: String) -> (r: Response)
    ensures
        r.status_of() == status,
        r.data_of() == text@,
        r.headers_of() == plain_text_headers(),
{
    let mut response = Response::new();
    response.status(status);
    response.text(text);
    response
}

/// What the request that was read (or the error of reading it) leads to: a
/// 400 with the error when it could not be read; a 404 naming the path when
/// no route answers it; the validation error when its query string breaks
/// the route's schema; and otherwise the bound request and the route's
/// handler.
pub fn route_request<'a, H>(router: &'a Router<H>, parsed: Result<Request, String>) -> (r: Outcome<
    'a,
    H,
>)
    ensures
        match parsed {
            Err(e) => r matches Outcome::Reply(resp) && resp.status_of() == 400 && resp.data_of()
                == e@ && resp.headers_of() == plain_text_headers(),
            Ok(req) => match resolve(router.routes_view(), route_method_of(req.method), req.path@) {
                None => r matches Outcome::Reply(resp) && resp.status_of() == 404
                    && resp.data_of() == "No corresponding endpoint: "@ + debug_text(req.path@)
                    && resp.headers_of() == plain_text_headers(),
                Some(i) => {
                    let schema = router.routes_view()[i].2;
                    let errors = errors_for(schema, bind(req.query_string@, schema));
                    if errors.dom() =~= Set::<Seq<char>>::empty() {
                        r matches Outcome::Handle(bound, h) && *h == router.routes_view()[i].3
                            && map_queries_post(req, bound, schema, Ok(()))
                    } else {
                        r matches Outcome::Reject(err) && err@ == (validation_error_name(), errors)
                    }
                },
            },
        },
{
    match parsed {
        Err(e) => Outcome::Reply(text_response(400, e)),
        Ok(mut request) => {
            let ghost before = request;
            match router.get_request_endpoint(request.method, &request.path) {
                Err(e) => Outcome::Reply(text_response(404, e)),
                Ok(route) => match request.map_queries(&route.queries) {
                    Ok(()) => Outcome::Handle(request, &route.controller),
                    Err(err) => Outcome::Reject(err),
                },
            }
        },
    }
}

/// An operation on the job queue: a job submitted, or a worker asking for
/// one.
pub enum PoolOp {
    Submit,
    Take(nat),
}

/// The state of the job queue: how many jobs were submitted, and which
/// worker took which job, in order.
pub struct PoolState {
    pub submitted: nat,
    pub log: Seq<(nat, nat)>,
}

/// The state after one operation: a submitted job gets the next number; a
/// worker that asks takes the oldest job not taken yet, if there is one.
pub open spec fn pool_step(s: PoolState, op: PoolOp) -> PoolState {
    match op {
        PoolOp::Submit => PoolState { submitted: s.submitted + 1, log: s.log },
        PoolOp::Take(w) => if s.log.len() < s.submitted {
            PoolState { submitted: s.submitted, log: s.log.push((w, s.log.len())) }
        } else {
            s
        },
    }
}

/// The state after a sequence of operations, from an empty queue.
pub open spec fn pool_run(ops: Seq<PoolOp>) -> PoolState
    decreases ops.len(),
{
    if ops.len() == 0 {
        PoolState { submitted: 0, log: Seq::empty() }
    } else {
        pool_step(pool_run(ops.drop_last()), ops.last())
    }
}

/// The number of submissions among `ops`.
pub open spec fn submissions(ops: Seq<PoolOp>) -> nat
    decreases ops.len(),
{
    if ops.len() == 0 {
        0
    } else {
        submissions(ops.drop_last()) + if ops.last() is Submit {
            1nat
        } else {
            0nat
        }
    }
}

/// Whatever the interleaving of submissions and of the workers' requests,
/// the jobs are taken in the order they were submitted, each at most once,
/// and never one that was not submitted.
pub proof fn lemma_jobs_taken_once(ops: Seq<PoolOp>)
    ensures
        pool_run(ops).submitted == submissions(ops),
        pool_run(ops).log.len() <= pool_run(ops).submitted,
        forall|i: int| 0 <= i < pool_run(ops).log.len() ==> #[trigger] pool_run(ops).log[i].1 == i,
    decreases ops.len(),
{
    if ops.len() > 0 {
        lemma_jobs_taken_once(ops.drop_last());
    }
}

/// Once enough requests for work follow, every submitted job has been taken
/// exactly once.
pub proof fn lemma_jobs_all_taken(ops: Seq<PoolOp>, takes: Seq<PoolOp>)
    requires
        takes.len() >= submissions(ops),
        forall|i: int| 0 <= i < takes.len() ==> #[trigger] takes[i] is Take,
    ensures
        pool_run(ops + takes).log.len() == submissions(ops),
        forall|i: int|
            0 <= i < submissions(ops) ==> #[trigger] pool_run(ops + takes).log[i].1 == i,
    decreases takes.len(),
{
    lemma_jobs_taken_once(ops + takes);
    lemma_takes_keep_count(ops, takes);
    if takes.len() > 0 {
        let shorter = takes.drop_last();
        assert((ops + takes).drop_last() =~= ops + shorter);
        lemma_takes_keep_count(ops, shorter);
        lemma_jobs_taken_once(ops + shorter);
        if pool_run(ops + shorter).log.len() < submissions(ops) {
            lemma_taken_at_least(ops, takes);
        }
    }
    if takes.len() == 0 {
        assert(ops + takes =~= ops);
        lemma_jobs_taken_once(ops);
    }
    lemma_taken_at_least(ops, takes);
}

/// Requests for work add no submissions.
proof fn lemma_takes_keep_count(ops: Seq<PoolOp>, takes: Seq<PoolOp>)
    requires
        forall|i: int| 0 <= i < takes.len() ==> #[trigger] takes[i] is Take,
    ensures
        submissions(ops + takes) == submissions(ops),
    decreases takes.len(),
{
    if takes.len() == 0 {
        assert(ops + takes =~= ops);
    } else {
        let shorter = takes.drop_last();
        assert((ops + takes).drop_last() =~= ops + shorter);
        assert((ops + takes).last() == takes.last());
        assert(takes.last() is Take);
        lemma_takes_keep_count(ops, shorter);
    }
}

/// Each request for work takes a job while some is left.
proof fn lemma_taken_at_least(ops: Seq<PoolOp>, takes: Seq<PoolOp>)
    requires
        forall|i: int| 0 <= i < takes.len() ==> #[trigger] takes[i] is Take,
    ensures
        pool_run(ops + takes).log.len() >= if pool_run(ops).log.len() + takes.len()
            <= submissions(ops) {
            (pool_run(ops).log.len() + takes.len()) as int
        } else {
            submissions(ops) as int
        },
    decreases takes.len(),
{
    lemma_jobs_taken_once(ops);
    if takes.len() == 0 {
        assert(ops + takes =~= ops);
    } else {
        let shorter = takes.drop_last();
        assert((ops + takes).drop_last() =~= ops + shorter);
        assert((ops + takes).last() == takes.last());
        assert(takes.last() is Take);
        lemma_taken_at_least(ops, shorter);
        lemma_takes_keep_count(ops, shorter);
        lemma_jobs_taken_once(ops + shorter);
    }
}

/// The job queue that the workers share: each submitted job gets a number,
/// and workers take the jobs in order.
pub struct JobQueue {
    submitted: u64,
    taken: u64,
    log: Ghost<Seq<(nat, nat)>>,
}

impl View for JobQueue {
    type V = PoolState;

    closed spec fn view(&self) -> PoolState {
        PoolState { submitted: self.submitted as nat, log: self.log@ }
    }
}

impl JobQueue {
    /// The queue's own invariant: one record for each job taken, and no more
    /// jobs taken than submitted.
    pub closed spec fn wf(&self) -> bool {
        &&& self.log@.len() == self.taken
        &&& self.taken <= self.submitted
    }

    /// An empty queue.
    pub fn new() -> (r: JobQueue)
        ensures
            r.wf(),
            r@ == pool_run(Seq::empty()),
    {
        JobQueue { submitted: 0, taken: 0, log: Ghost(Seq::empty()) }
    }

    /// Whether no more jobs can be numbered.
    pub fn is_full(&self) -> (r: bool)
        ensures
            r == (self@.submitted == u64::MAX),
    {
        self.submitted == u64::MAX
    }

    /// Submits a job; its number is returned.
    pub fn submit(&mut self) -> (r: u64)
        requires
            old(self).wf(),
            old(self)@.submitted < u64::MAX,
        ensures
            final(self).wf(),
            r == old(self)@.submitted,
            final(self)@ == pool_step(old(self)@, PoolOp::Submit),
    {
        let n = self.submitted;
        self.submitted = n + 1;
        n
    }

    /// The number of the oldest job not taken yet, which the worker
    /// `worker` now takes; `None` when every submitted job has been taken.
    pub fn take(&mut self, worker: usize) -> (r: Option<u64>)
        requires
            old(self).wf(),
        ensures
            final(self).wf(),
            final(self)@ == pool_step(old(self)@, PoolOp::Take(worker as nat)),
            r == if old(self)@.log.len() < old(self)@.submitted {
                Some(old(self)@.log.len() as u64)
            } else {
                None
            },
    {
        if self.taken < self.submitted {
            let n = self.taken;
            self.taken = n + 1;
            self.log = Ghost(self.log@.push((worker as nat, n as nat)));
            Some(n)
        } else {
            None
        }
    }
}

} // verus!
