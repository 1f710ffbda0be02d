//! The chain of middlewares. Each middleware has a position; the innermost has position zero.
//! Messages of the client go from the outermost middleware inwards. Messages of the relay go
//! outwards, from the middleware that sends them on.

use crate::error::Error;
use crate::middlewares::error_handling::ErrorHandlingMiddleware;
use crate::middlewares::logger::LoggerMiddleware;
use crate::nostr_middleware::Flow;
use vstd::prelude::*;

verus! {

/// The inner end of a chain.
#[derive(Debug, Clone, Copy, PartialEq, Eq, Structural)]
pub struct End;

impl End {
    pub fn new() -> (r: End)
        ensures
            r == End,
    {
        End
    }
}

impl Default for End {
    fn default() -> (r: End)
        ensures
            r == End,
    {
        End
    }
}

/// A middleware with the chain inside it.
pub struct ChainBlueprint<M, Next> {
    pub middleware: M,
    pub next: Next,
    pub position: usize,
}

/// A chain, as far as the order of its middlewares goes.
pub trait Chain: Sized {
    /// The positions of the middlewares, from the innermost to the outermost.
    spec fn positions(&self) -> Seq<usize>;

    /// The positions of the middlewares that a message of the client, the event of a new
    /// connection, passes through, in this order.
    fn inbound_route(&self) -> (r: Vec<usize>)
        ensures
            r@ == self.positions().reverse(),
    ;

    /// The positions of the middlewares that a message of the relay passes through, in this
    /// order, where it was sent from a position.
    fn outbound_route(&self, from_position: usize) -> (r: Vec<usize>)
        ensures
            r@ == from_on(self.positions(), from_position),
    ;

    /// The positions of the middlewares that learn of the end of a connection, in this order.
    fn disconnect_route(&self) -> (r: Vec<usize>)
        ensures
            r@ == self.positions(),
    ;
}

/// The positions of a list that are not below `from`.
pub open spec fn from_on(positions: Seq<usize>, from: usize) -> Seq<usize>
    decreases positions.len(),
{
    if positions.len() == 0 {
        positions
    } else if from <= positions.last() {
        from_on(positions.drop_last(), from).push(positions.last())
    } else {
        from_on(positions.drop_last(), from)
    }
}

impl Chain for End {
    open spec fn positions(&self) -> Seq<usize> {
        Seq::empty()
    }

    fn inbound_route(&self) -> (r: Vec<usize>) {
        let r: Vec<usize> = Vec::new();
        proof {
            assert(r@ =~= Seq::<usize>::empty().reverse());
        }
        r
    }

    fn outbound_route(&self, from_position: usize) -> (r: Vec<usize>) {
        Vec::new()
    }

    fn disconnect_route(&self) -> (r: Vec<usize>) {
        Vec::new()
    }
}

impl<M, Next: Chain> Chain for ChainBlueprint<M, Next> {
    open spec fn positions(&self) -> Seq<usize> {
        self.next.positions().push(self.position)
    }

    fn inbound_route(&self) -> (r: Vec<usize>) {
        let mut rest = self.next.inbound_route();
        let mut r: Vec<usize> = Vec::new();
        r.push(self.position);
        let ghost inner = rest@;
        r.append(&mut rest);
        proof {
            assert(r@ =~= seq![self.position] + inner);
            assert(r@ =~= self.positions().reverse());
        }
        r
    }

    fn outbound_route(&self, from_position: usize) -> (r: Vec<usize>) {
        let mut r = self.next.outbound_route(from_position);
        proof {
            assert(self.positions().drop_last() =~= self.next.positions());
        }
        if from_position <= self.position {
            r.push(self.position);
        }
        r
    }

    fn disconnect_route(&self) -> (r: Vec<usize>) {
        let mut r = self.next.disconnect_route();
        r.push(self.position);
        r
    }
}

/// A chain that is being built from the inside out.
pub struct NostrChainBuilder<Current: Chain> {
    chain: Current,
    next_position: usize,
}

impl<Current: Chain> NostrChainBuilder<Current> {
    /// The chain so far.
    pub closed spec fn current(self) -> Current {
        self.chain
    }

    /// The positions of the chain count up from zero.
    pub closed spec fn wf(self) -> bool {
        &&& self.chain.positions().len() == self.next_position
        &&& counted(self.chain.positions())
    }

    /// Puts a middleware around the chain.
    pub fn with<M>(self, middleware: M) -> (r: NostrChainBuilder<ChainBlueprint<M, Current>>)
        requires
            self.wf(),
            self.current().positions().len() < usize::MAX,
        ensures
            r.wf(),
            r.current().middleware == middleware,
            r.current().next == self.current(),
            r.current().position == self.current().positions().len(),
    {
        let position: usize = self.next_position;
        NostrChainBuilder {
            chain: ChainBlueprint { middleware, next: self.chain, position },
            next_position: position + 1,
        }
    }

    /// Puts the handling of errors around the chain, and the logger around that.
    pub fn with_essentials(self) -> (r: NostrChainBuilder<
        ChainBlueprint<LoggerMiddleware, ChainBlueprint<ErrorHandlingMiddleware, Current>>,
    >)
        requires
            self.wf(),
            self.current().positions().len() + 1 < usize::MAX,
        ensures
            r.wf(),
            r.current().middleware == LoggerMiddleware,
            r.current().position == self.current().positions().len() + 1,
            r.current().next.middleware == ErrorHandlingMiddleware,
            r.current().next.position == self.current().positions().len(),
            r.current().next.next == self.current(),
    {
        self.with(ErrorHandlingMiddleware::new()).with(LoggerMiddleware::new())
    }

    /// The chain.
    pub fn build(self) -> (r: Current)
        requires
            self.wf(),
        ensures
            r == self.current(),
            counted(r.positions()),
    {
        self.chain
    }
}

impl NostrChainBuilder<End> {
    /// A chain without middlewares.
    pub fn new() -> (r: NostrChainBuilder<End>)
        ensures
            r.wf(),
            r.current() == End,
    {
        NostrChainBuilder { chain: End::new(), next_position: 0 }
    }
}

/// A chain without middlewares.
pub fn chain() -> (r: NostrChainBuilder<End>)
    ensures
        r.wf(),
        r.current() == End,
{
    NostrChainBuilder::new()
}

/// What a middleware leaves of a message on its way out, and whether it failed.
pub type Step<M> = (Option<M>, Result<(), Error>);

/// The result of passing a message through the middlewares at the given positions, in this order:
/// each sees the message as the one before left it, and the first failure ends the rest and is the
/// result. `process` relates a position and a message to what the middleware there may do.
pub open spec fn passes<M>(
    process: spec_fn(usize, Option<M>, Step<M>) -> bool,
    route: Seq<usize>,
    message: Option<M>,
    result: Step<M>,
) -> bool
    decreases route.len(),
{
    if route.len() == 0 {
        result == (message, Ok::<(), Error>(()))
    } else {
        exists|step: Step<M>|
            {
                &&& #[trigger] process(route[0], message, step)
                &&& match step.1 {
                    Ok(_) => passes(process, route.drop_first(), step.0, result),
                    Err(_) => result == step,
                }
            }
    }
}

/// Passes a message through the middlewares at the given positions, in this order.
fn pass_along<M, F: Fn(usize, Option<M>) -> Step<M>>(
    route: &Vec<usize>,
    message: Option<M>,
    process: F,
) -> (r: Step<M>)
    requires
        forall|position: usize, m: Option<M>| call_requires(process, (position, m)),
    ensures
        passes(
            |position: usize, m: Option<M>, step: Step<M>|
                call_ensures(process, (position, m), step),
            route@,
            message,
            r,
        ),
{
    let ghost relation = |position: usize, m: Option<M>, step: Step<M>|
        call_ensures(process, (position, m), step);
    let ghost all = route@;
    let ghost start = message;
    let mut current = message;
    let mut i: usize = 0;
    proof {
        assert(all.skip(0) =~= all);
    }
    while i < route.len()
        invariant
            i <= route@.len(),
            all == route@,
            start == message,
            forall|position: usize, m: Option<M>| call_requires(process, (position, m)),
            relation == (|position: usize, m: Option<M>, step: Step<M>|
                call_ensures(process, (position, m), step)),
            forall|result: Step<M>|
                passes(relation, all.skip(i as int), current, result) ==> #[trigger] passes(
                    relation,
                    all,
                    start,
                    result,
                ),
        decreases route@.len() - i,
    {
        let ghost seen = current;
        let ghost rest = all.skip(i as int);
        let step = process(route[i], current);
        proof {
            assert(rest[0] == route@[i as int]);
            assert(rest.drop_first() =~= all.skip(i + 1));
            assert(relation(rest[0], seen, step));
        }
        match step {
            (left, Ok(_)) => {
                proof {
                    assert forall|result: Step<M>|
                        passes(relation, all.skip(i + 1), left, result) implies #[trigger] passes(
                        relation,
                        all,
                        start,
                        result,
                    ) by {
                        assert(passes(relation, rest, seen, result));
                    }
                }
                current = left;
            },
            (left, Err(e)) => {
                proof {
                    assert(passes(relation, rest, seen, step));
                    assert(passes(relation, all, start, step));
                }
                return (left, Err(e));
            },
        }
        i = i + 1;
    }
    proof {
        assert(passes(relation, all.skip(i as int), current, (current, Ok::<(), Error>(()))));
    }
    (current, Ok(()))
}

/// Passes a message of the relay through the middlewares of a chain, from the position that it
/// was sent from outwards.
pub fn process_outbound_chain<C: Chain, M, F: Fn(usize, Option<M>) -> Step<M>>(
    chain: &C,
    from_position: usize,
    message: Option<M>,
    process: F,
) -> (r: Step<M>)
    requires
        forall|position: usize, m: Option<M>| call_requires(process, (position, m)),
    ensures
        passes(
            |position: usize, m: Option<M>, step: Step<M>|
                call_ensures(process, (position, m), step),
            from_on(chain.positions(), from_position),
            message,
            r,
        ),
{
    pass_along(&chain.outbound_route(from_position), message, process)
}

/// Tells the middlewares of a chain of a new connection, from the outermost inwards. What they
/// make of it is handed on, and the first failure ends the rest.
pub fn on_connect_chain<C: Chain, M, F: Fn(usize, Option<M>) -> Step<M>>(
    chain: &C,
    made: Option<M>,
    process: F,
) -> (r: Step<M>)
    requires
        forall|position: usize, m: Option<M>| call_requires(process, (position, m)),
    ensures
        passes(
            |position: usize, m: Option<M>, step: Step<M>|
                call_ensures(process, (position, m), step),
            chain.positions().reverse(),
            made,
            r,
        ),
{
    pass_along(&chain.inbound_route(), made, process)
}

/// Tells the middlewares of a chain of the end of a connection, from the innermost outwards. What
/// they make of it is handed on, and the first failure ends the rest.
pub fn on_disconnect_chain<C: Chain, M, F: Fn(usize, Option<M>) -> Step<M>>(
    chain: &C,
    made: Option<M>,
    process: F,
) -> (r: Step<M>)
    requires
        forall|position: usize, m: Option<M>| call_requires(process, (position, m)),
    ensures
        passes(
            |position: usize, m: Option<M>, step: Step<M>|
                call_ensures(process, (position, m), step),
            chain.positions(),
            made,
            r,
        ),
{
    pass_along(&chain.disconnect_route(), made, process)
}

/// What a middleware leaves of a message on its way in, and how it goes on.
pub type InboundStep<M> = (Option<M>, Flow);

/// The result of a message of the client on its way in through the middlewares at the given
/// positions. `process` relates a position and a message to what the middleware there may do: the
/// next one sees the message as this one left it. `after` relates a position and the result of the
/// middlewares behind it to what the middleware there may make of that result.
pub open spec fn flows<M>(
    process: spec_fn(usize, Option<M>, InboundStep<M>) -> bool,
    after: spec_fn(usize, Result<(), Error>, Result<(), Error>) -> bool,
    route: Seq<usize>,
    message: Option<M>,
    result: Result<(), Error>,
) -> bool
    decreases route.len(),
{
    if route.len() == 0 {
        result == Ok::<(), Error>(())
    } else {
        exists|step: InboundStep<M>|
            {
                &&& #[trigger] process(route[0], message, step)
                &&& match step.1 {
                    Flow::Next => exists|inner: Result<(), Error>|
                        {
                            &&& flows(process, after, route.drop_first(), step.0, inner)
                            &&& #[trigger] after(route[0], inner, result)
                        },
                    Flow::Done => result == Ok::<(), Error>(()),
                    Flow::Fail(e) => result == Err::<(), Error>(e),
                }
            }
    }
}

/// Where a message of the client is on its way through the middlewares of a route.
pub enum InboundWalk {
    /// The middleware at a place of the route processes the message next.
    Process(usize),
    /// The middleware at a place of the route went on, and this is the result of the ones behind
    /// it.
    After(usize, Result<(), Error>),
    /// The way is over, with this result.
    End(Result<(), Error>),
}

/// The way back from a place of the route: the middlewares before it see the result.
pub open spec fn way_back(place: int, result: Result<(), Error>) -> InboundWalk {
    if place == 0 {
        InboundWalk::End(result)
    } else {
        InboundWalk::After((place - 1) as usize, result)
    }
}

/// Where a message is once the middleware at a place of a route processed it.
pub open spec fn walk_processed(length: nat, place: int, flow: Flow) -> InboundWalk {
    match flow {
        Flow::Next => if place + 1 < length {
            InboundWalk::Process((place + 1) as usize)
        } else {
            way_back(place + 1, Ok(()))
        },
        Flow::Done => way_back(place, Ok(())),
        Flow::Fail(e) => way_back(place, Err(e)),
    }
}

fn back_from(place: usize, result: Result<(), Error>) -> (r: InboundWalk)
    ensures
        r == way_back(place as int, result),
{
    if place == 0 {
        InboundWalk::End(result)
    } else {
        InboundWalk::After(place - 1, result)
    }
}

impl InboundWalk {
    /// Where a message is that comes in, on a route of the given length.
    pub fn start(length: usize) -> (r: InboundWalk)
        ensures
            r == if length == 0 {
                InboundWalk::End(Ok(()))
            } else {
                InboundWalk::Process(0)
            },
    {
        if length == 0 {
            InboundWalk::End(Ok(()))
        } else {
            InboundWalk::Process(0)
        }
    }

    /// Where a message is once the middleware at a place of a route processed it, given how it
    /// goes on.
    pub fn processed(length: usize, place: usize, flow: Flow) -> (r: InboundWalk)
        requires
            place < length,
        ensures
            r == walk_processed(length as nat, place as int, flow),
    {
        match flow {
            Flow::Next => {
                if place + 1 < length {
                    InboundWalk::Process(place + 1)
                } else {
                    back_from(place + 1, Ok(()))
                }
            },
            Flow::Done => back_from(place, Ok(())),
            Flow::Fail(e) => back_from(place, Err(e)),
        }
    }

    /// Where a message is once the middleware at a place of a route made this of the result of the
    /// ones behind it.
    pub fn returned(place: usize, result: Result<(), Error>) -> (r: InboundWalk)
        ensures
            r == way_back(place as int, result),
    {
        back_from(place, result)
    }
}

/// What the middlewares before a place of a route may make of a result, each of what the one
/// behind it made.
spec fn comes_back(
    after: spec_fn(usize, Result<(), Error>, Result<(), Error>) -> bool,
    route: Seq<usize>,
    place: int,
    inner: Result<(), Error>,
    result: Result<(), Error>,
) -> bool
    decreases place,
{
    if place <= 0 {
        result == inner
    } else {
        exists|outer: Result<(), Error>|
            {
                &&& #[trigger] after(route[place - 1], inner, outer)
                &&& comes_back(after, route, place - 1, outer, result)
            }
    }
}

/// Every way on from a place gives a result that the whole route may give.
spec fn leads_on<M>(
    process: spec_fn(usize, Option<M>, InboundStep<M>) -> bool,
    after: spec_fn(usize, Result<(), Error>, Result<(), Error>) -> bool,
    route: Seq<usize>,
    start: Option<M>,
    place: int,
    message: Option<M>,
) -> bool {
    forall|inner: Result<(), Error>, result: Result<(), Error>|
        flows(process, after, route.skip(place), message, inner) && #[trigger] comes_back(
            after,
            route,
            place,
            inner,
            result,
        ) ==> flows(process, after, route, start, result)
}

/// Every way back from a place gives a result that the whole route may give.
spec fn leads_back<M>(
    process: spec_fn(usize, Option<M>, InboundStep<M>) -> bool,
    after: spec_fn(usize, Result<(), Error>, Result<(), Error>) -> bool,
    route: Seq<usize>,
    start: Option<M>,
    place: int,
    inner: Result<(), Error>,
) -> bool {
    forall|result: Result<(), Error>| #[trigger]
        comes_back(after, route, place, inner, result) ==> flows(process, after, route, start, result)
}

/// Where a message may be, given what was done so far.
spec fn walk_fits<M>(
    process: spec_fn(usize, Option<M>, InboundStep<M>) -> bool,
    after: spec_fn(usize, Result<(), Error>, Result<(), Error>) -> bool,
    route: Seq<usize>,
    start: Option<M>,
    walk: InboundWalk,
    message: Option<M>,
) -> bool {
    match walk {
        InboundWalk::Process(place) => place < route.len() && leads_on(
            process,
            after,
            route,
            start,
            place as int,
            message,
        ),
        InboundWalk::After(place, inner) => place < route.len() && leads_back(
            process,
            after,
            route,
            start,
            place + 1,
            inner,
        ),
        InboundWalk::End(result) => flows(process, after, route, start, result),
    }
}

/// The way back from a place fits where the results that it leads to do.
proof fn lemma_way_back<M>(
    process: spec_fn(usize, Option<M>, InboundStep<M>) -> bool,
    after: spec_fn(usize, Result<(), Error>, Result<(), Error>) -> bool,
    route: Seq<usize>,
    start: Option<M>,
    place: int,
    inner: Result<(), Error>,
    message: Option<M>,
)
    requires
        0 <= place <= route.len() <= usize::MAX,
        leads_back(process, after, route, start, place, inner),
    ensures
        walk_fits(process, after, route, start, way_back(place, inner), message),
{
    if place == 0 {
        assert(comes_back(after, route, 0, inner, inner));
    }
}

/// What a middleware does with a message leads to where the message is then.
proof fn lemma_walk_processed<M>(
    process: spec_fn(usize, Option<M>, InboundStep<M>) -> bool,
    after: spec_fn(usize, Result<(), Error>, Result<(), Error>) -> bool,
    route: Seq<usize>,
    start: Option<M>,
    place: int,
    message: Option<M>,
    step: InboundStep<M>,
)
    requires
        0 <= place < route.len() <= usize::MAX,
        leads_on(process, after, route, start, place, message),
        process(route[place], message, step),
    ensures
        walk_fits(
            process,
            after,
            route,
            start,
            walk_processed(route.len(), place, step.1),
            step.0,
        ),
{
    let rest = route.skip(place);
    assert(rest[0] == route[place]);
    assert(rest.drop_first() =~= route.skip(place + 1));
    match step.1 {
        Flow::Next => {
            assert forall|inner: Result<(), Error>, result: Result<(), Error>|
                flows(process, after, route.skip(place + 1), step.0, inner) && #[trigger] comes_back(
                    after,
                    route,
                    place + 1,
                    inner,
                    result,
                ) implies flows(process, after, route, start, result) by {
                let outer = choose|outer: Result<(), Error>|
                    {
                        &&& #[trigger] after(route[place], inner, outer)
                        &&& comes_back(after, route, place, outer, result)
                    };
                assert(after(rest[0], inner, outer));
                assert(flows(process, after, rest, message, outer));
                assert(comes_back(after, route, place, outer, result));
            }
            if place + 1 == route.len() {
                assert(flows(process, after, route.skip(place + 1), step.0, Ok(())));
                assert(leads_back(process, after, route, start, place + 1, Ok(())));
                lemma_way_back(process, after, route, start, place + 1, Ok(()), step.0);
            }
        },
        Flow::Done => {
            assert(flows(process, after, rest, message, Ok(())));
            assert(leads_back(process, after, route, start, place, Ok(())));
            lemma_way_back(process, after, route, start, place, Ok(()), step.0);
        },
        Flow::Fail(e) => {
            assert(flows(process, after, rest, message, Err(e)));
            assert(leads_back(process, after, route, start, place, Err(e)));
            lemma_way_back(process, after, route, start, place, Err(e), step.0);
        },
    }
}

/// What a middleware makes of a result leads to where the message is then.
proof fn lemma_walk_returned<M>(
    process: spec_fn(usize, Option<M>, InboundStep<M>) -> bool,
    after: spec_fn(usize, Result<(), Error>, Result<(), Error>) -> bool,
    route: Seq<usize>,
    start: Option<M>,
    place: int,
    inner: Result<(), Error>,
    outer: Result<(), Error>,
    message: Option<M>,
)
    requires
        0 <= place < route.len() <= usize::MAX,
        leads_back(process, after, route, start, place + 1, inner),
        after(route[place], inner, outer),
    ensures
        walk_fits(process, after, route, start, way_back(place, outer), message),
{
    assert forall|result: Result<(), Error>| #[trigger]
        comes_back(after, route, place, outer, result) implies flows(
        process,
        after,
        route,
        start,
        result,
    ) by {
        let behind = place + 1;
        assert(after(route[behind - 1], inner, outer));
        assert(comes_back(after, route, behind, inner, result));
    }
    lemma_way_back(process, after, route, start, place, outer, message);
}

/// Passes a message of the client through the middlewares of a chain, from the outermost inwards.
pub fn process_inbound_chain<
    C: Chain,
    M,
    F: Fn(usize, Option<M>) -> InboundStep<M>,
    G: Fn(usize, Result<(), Error>) -> Result<(), Error>,
>(chain: &C, message: Option<M>, process: F, after: G) -> (r: Result<(), Error>)
    requires
        forall|position: usize, m: Option<M>| call_requires(process, (position, m)),
        forall|position: usize, inner: Result<(), Error>| call_requires(after, (position, inner)),
    ensures
        flows(
            |position: usize, m: Option<M>, step: InboundStep<M>|
                call_ensures(process, (position, m), step),
            |position: usize, inner: Result<(), Error>, outer: Result<(), Error>|
                call_ensures(after, (position, inner), outer),
            chain.positions().reverse(),
            message,
            r,
        ),
{
    let route = chain.inbound_route();
    let length: usize = route.len();
    let ghost start = message;
    let ghost processed = |position: usize, m: Option<M>, step: InboundStep<M>|
        call_ensures(process, (position, m), step);
    let ghost returned = |position: usize, inner: Result<(), Error>, outer: Result<(), Error>|
        call_ensures(after, (position, inner), outer);
    let mut current = message;
    let mut walk = InboundWalk::start(length);
    proof {
        assert(route@.skip(0) =~= route@);
        assert(leads_on(processed, returned, route@, start, 0, current));
    }
    loop
        invariant
            length == route@.len(),
            route@ == chain.positions().reverse(),
            start == message,
            forall|position: usize, m: Option<M>| call_requires(process, (position, m)),
            forall|position: usize, inner: Result<(), Error>|
                call_requires(after, (position, inner)),
            processed == (|position: usize, m: Option<M>, step: InboundStep<M>|
                call_ensures(process, (position, m), step)),
            returned == (|position: usize, inner: Result<(), Error>, outer: Result<(), Error>|
                call_ensures(after, (position, inner), outer)),
            walk_fits(processed, returned, route@, start, walk, current),
        decreases
                match walk {
                    InboundWalk::Process(place) => 2 * length - place + 1,
                    InboundWalk::After(place, _) => place + 1,
                    InboundWalk::End(_) => 0,
                },
    {
        match walk {
            InboundWalk::Process(place) => {
                let ghost seen = current;
                let (left, flow) = process(route[place], current);
                proof {
                    assert(processed(route@[place as int], seen, (left, flow)));
                    lemma_walk_processed(
                        processed,
                        returned,
                        route@,
                        start,
                        place as int,
                        seen,
                        (left, flow),
                    );
                }
                current = left;
                walk = InboundWalk::processed(length, place, flow);
            },
            InboundWalk::After(place, inner) => {
                let ghost given = inner;
                let outer = after(route[place], inner);
                proof {
                    assert(returned(route@[place as int], given, outer));
                    lemma_walk_returned(
                        processed,
                        returned,
                        route@,
                        start,
                        place as int,
                        given,
                        outer,
                        current,
                    );
                }
                walk = InboundWalk::returned(place, outer);
            },
            InboundWalk::End(result) => {
                return result;
            },
        }
    }
}

/// The positions count up from zero.
pub open spec fn counted(positions: Seq<usize>) -> bool {
    forall|i: int| 0 <= i < positions.len() ==> #[trigger] positions[i] == i
}

proof fn lemma_from_on_counted(positions: Seq<usize>, from: usize)
    requires
        counted(positions),
    ensures
        from_on(positions, from) == positions.skip(
            if from <= positions.len() {
                from as int
            } else {
                positions.len() as int
            },
        ),
    decreases positions.len(),
{
    if positions.len() > 0 {
        let init = positions.drop_last();
        assert(counted(init)) by {
            assert forall|i: int| 0 <= i < init.len() implies #[trigger] init[i] == i by {
                assert(positions[i] == i);
            }
        }
        lemma_from_on_counted(init, from);
        let k = positions.len() - 1;
        assert(positions[k] == k);
        if from <= k {
            assert(init.skip(from as int).push(positions.last()) =~= positions.skip(from as int));
        } else {
            let n = if from <= positions.len() { from as int } else { positions.len() as int };
            let m = if from <= init.len() { from as int } else { init.len() as int };
            assert(init.skip(m) =~= positions.skip(n));
        }
    } else {
        assert(positions.skip(0) =~= positions);
    }
}

/// A message passes through the middleware that sends it and the ones outside it, from the
/// inside out; one that bypasses its sender passes through the ones outside it only.
pub proof fn law_outbound_order(positions: Seq<usize>, position: usize)
    requires
        counted(positions),
        position < positions.len(),
        position < usize::MAX,
    ensures
        from_on(positions, position) == positions.skip(position as int),
        from_on(positions, (position + 1) as usize) == positions.skip(position + 1),
        from_on(positions, 0) == positions,
{
    lemma_from_on_counted(positions, position);
    lemma_from_on_counted(positions, (position + 1) as usize);
    lemma_from_on_counted(positions, 0);
    assert(positions.skip(0) =~= positions);
}

/// The middlewares that a message passes on its way out are those from the position that it was sent
/// from on, in the order of the chain.
pub proof fn law_outbound_positions(positions: Seq<usize>, from: usize)
    ensures
        from_on(positions, from) == positions.filter(|position: usize| position >= from),
    decreases positions.len(),
{
    reveal(Seq::filter);
    if positions.len() > 0 {
        law_outbound_positions(positions.drop_last(), from);
    }
}

/// A message that passes one middleware is what that middleware leaves of it, with the result of that
/// middleware; one that passes none is as it was.
pub proof fn law_passing_one_middleware<M>(
    process: spec_fn(usize, Option<M>, Step<M>) -> bool,
    position: usize,
    message: Option<M>,
    result: Step<M>,
)
    ensures
        passes(process, seq![position], message, result) <==> process(position, message, result),
        passes(process, Seq::empty(), message, result) <==> result == (message, Ok::<(), Error>(())),
{
    let route = seq![position];
    assert(route.drop_first() =~= Seq::empty());
    assert(route[0] == position);
    if passes(process, route, message, result) {
        let step = choose|step: Step<M>|
            {
                &&& #[trigger] process(route[0], message, step)
                &&& match step.1 {
                    Ok(_) => passes(process, route.drop_first(), step.0, result),
                    Err(_) => result == step,
                }
            };
        if step.1 is Ok {
            assert(result == (step.0, Ok::<(), Error>(())));
            let nothing = step.1->Ok_0;
            assert(nothing == ());
            assert(step.1 == Ok::<(), Error>(nothing));
            assert(result == step);
        }
    }
    if process(position, message, result) {
        assert(process(route[0], message, result));
        if result.1 is Ok {
            let nothing = result.1->Ok_0;
            assert(nothing == ());
            assert(result.1 == Ok::<(), Error>(nothing));
            assert(passes(process, route.drop_first(), result.0, result));
        }
        assert(passes(process, route, message, result));
    }
}

/// A message that passes two groups of middlewares passes the first and then, as the first left it,
/// the second; where the first fails, the second is not reached, and the failure is the result.
pub proof fn law_passing_in_parts<M>(
    process: spec_fn(usize, Option<M>, Step<M>) -> bool,
    a: Seq<usize>,
    b: Seq<usize>,
    message: Option<M>,
    result: Step<M>,
)
    ensures
        passes(process, a + b, message, result) <==> exists|middle: Step<M>| #[trigger]
            passes(process, a, message, middle) && match middle.1 {
                Ok(_) => passes(process, b, middle.0, result),
                Err(_) => result == middle,
            },
    decreases a.len(),
{
    if a.len() == 0 {
        assert(a + b =~= b);
        let same: Step<M> = (message, Ok(()));
        if passes(process, b, message, result) {
            assert(passes(process, a, message, same));
        }
    } else {
        assert((a + b)[0] == a[0]);
        assert((a + b).drop_first() =~= a.drop_first() + b);
        let whole = a + b;
        let rest = a.drop_first();
        if passes(process, whole, message, result) {
            let step = choose|step: Step<M>|
                {
                    &&& #[trigger] process(whole[0], message, step)
                    &&& match step.1 {
                        Ok(_) => passes(process, whole.drop_first(), step.0, result),
                        Err(_) => result == step,
                    }
                };
            assert(process(a[0], message, step));
            if step.1 is Ok {
                law_passing_in_parts(process, rest, b, step.0, result);
                let middle = choose|middle: Step<M>| #[trigger]
                    passes(process, rest, step.0, middle) && match middle.1 {
                        Ok(_) => passes(process, b, middle.0, result),
                        Err(_) => result == middle,
                    };
                assert(passes(process, a, message, middle));
            } else {
                assert(passes(process, a, message, step));
            }
        }
        if exists|middle: Step<M>| #[trigger]
            passes(process, a, message, middle) && match middle.1 {
                Ok(_) => passes(process, b, middle.0, result),
                Err(_) => result == middle,
            } {
            let middle = choose|middle: Step<M>| #[trigger]
                passes(process, a, message, middle) && match middle.1 {
                    Ok(_) => passes(process, b, middle.0, result),
                    Err(_) => result == middle,
                };
            let step = choose|step: Step<M>|
                {
                    &&& #[trigger] process(a[0], message, step)
                    &&& match step.1 {
                        Ok(_) => passes(process, a.drop_first(), step.0, middle),
                        Err(_) => middle == step,
                    }
                };
            assert(process(whole[0], message, step));
            if step.1 is Ok {
                assert(passes(process, rest, step.0, middle));
                law_passing_in_parts(process, rest, b, step.0, result);
            }
            assert(passes(process, whole, message, result));
        }
    }
}

/// A middleware that is done with a message, or fails on it, ends its way in: nothing behind it
/// decides the result. One that goes on gets the result of those behind it.
pub proof fn law_a_middleware_ends_the_way_in<M>(
    process: spec_fn(usize, Option<M>, InboundStep<M>) -> bool,
    after: spec_fn(usize, Result<(), Error>, Result<(), Error>) -> bool,
    position: usize,
    rest: Seq<usize>,
    message: Option<M>,
    step: InboundStep<M>,
    result: Result<(), Error>,
)
    requires
        forall|other: InboundStep<M>| #[trigger] process(position, message, other) <==> other == step,
    ensures
        step.1 is Done ==> (flows(process, after, seq![position] + rest, message, result) <==> result
            == Ok::<(), Error>(())),
        step.1 matches Flow::Fail(e) ==> (flows(
            process,
            after,
            seq![position] + rest,
            message,
            result,
        ) <==> result == Err::<(), Error>(e)),
        step.1 is Next ==> (flows(process, after, seq![position] + rest, message, result) <==> exists|
            inner: Result<(), Error>,
        | #[trigger]
            flows(process, after, rest, step.0, inner) && after(position, inner, result)),
        flows(process, after, Seq::empty(), message, result) <==> result == Ok::<(), Error>(()),
{
    let route = seq![position] + rest;
    assert(route[0] == position);
    assert(route.drop_first() =~= rest);
    assert(process(route[0], message, step));
    if step.1 is Next {
        if exists|inner: Result<(), Error>| #[trigger]
            flows(process, after, rest, step.0, inner) && after(position, inner, result) {
            let inner = choose|inner: Result<(), Error>| #[trigger]
                flows(process, after, rest, step.0, inner) && after(position, inner, result);
            assert(after(route[0], inner, result));
        }
        if flows(process, after, route, message, result) {
            let found = choose|found: InboundStep<M>|
                {
                    &&& #[trigger] process(route[0], message, found)
                    &&& match found.1 {
                        Flow::Next => exists|inner: Result<(), Error>|
                            {
                                &&& flows(process, after, route.drop_first(), found.0, inner)
                                &&& #[trigger] after(route[0], inner, result)
                            },
                        Flow::Done => result == Ok::<(), Error>(()),
                        Flow::Fail(e) => result == Err::<(), Error>(e),
                    }
                };
            assert(found == step);
            let inner = choose|inner: Result<(), Error>|
                {
                    &&& flows(process, after, route.drop_first(), step.0, inner)
                    &&& #[trigger] after(route[0], inner, result)
                };
            assert(flows(process, after, rest, step.0, inner));
        }
    }
}

/// A chain that is built from the inside out has the core at position zero and each later middleware
/// at the next position; messages of the client meet the last one first.
pub proof fn law_built_chains_count_outwards<C: Chain, M>(
    before: NostrChainBuilder<C>,
    middleware: M,
    after: NostrChainBuilder<ChainBlueprint<M, C>>,
    built: ChainBlueprint<M, C>,
)
    requires
        before.wf(),
        call_ensures(NostrChainBuilder::<C>::with::<M>, (before, middleware), after),
        call_ensures(NostrChainBuilder::<ChainBlueprint<M, C>>::build, (after,), built),
    ensures
        built.middleware == middleware,
        built.positions() == before.current().positions().push(
            before.current().positions().len() as usize,
        ),
        forall|i: int| 0 <= i < built.positions().len() ==> #[trigger] built.positions()[i] == i,
        built.positions().reverse()[0] == built.position,
{
    assert(built.positions().reverse()[0] == built.positions().last());
}

} // verus!
