//! Control of the bounce loop that colors one camera ray.
//!
//! The loop alternates work on the scene (an intersection query and the
//! scatter of the hit material) with the decisions made here: whether to
//! query at all, and what the path contributes once it ends. A caller keeps
//! the running product of attenuations and the current ray.
use vstd::prelude::*;

verus! {

/// What one query of the scene, and the scatter at the hit, gave.
#[derive(Clone, Copy, Debug, PartialEq, Eq, Structural)]
pub enum Bounce {
    /// Nothing was hit.
    Missed,
    /// A surface was hit and its material absorbed the ray.
    Absorbed,
    /// A surface was hit and its material sent out a new ray, with an
    /// attenuation that the caller multiplies into its product.
    Scattered,
}

/// What the bounce loop does next.
#[derive(Clone, Copy, Debug, PartialEq, Eq, Structural)]
pub enum Action {
    /// Query the scene with the current ray; `depth` bounces remain.
    Query { depth: u32 },
    /// The path contributes black.
    Black,
    /// The path contributes the background gradient of the current ray's
    /// direction, times the attenuations gathered so far.
    Background,
}

/// The first action for a ray allowed `depth` bounces: with none left the
/// path is black and the scene is never queried.
pub open spec fn begin_spec(depth: u32) -> Action {
    if depth == 0 {
        Action::Black
    } else {
        Action::Query { depth }
    }
}

/// The action after a query made with `depth` bounces remaining: a miss
/// shows the background, an absorption is black, and a scattered ray starts
/// again with one bounce fewer.
pub open spec fn advance_spec(depth: u32, event: Bounce) -> Action {
    match event {
        Bounce::Missed => Action::Background,
        Bounce::Absorbed => Action::Black,
        Bounce::Scattered => begin_spec((depth - 1) as u32),
    }
}

/// How many queries a path makes from action `a` when the queries give
/// `events` in turn.
pub open spec fn queries_from(a: Action, events: Seq<Bounce>) -> nat
    decreases events.len(),
{
    match a {
        Action::Query { depth } => if events.len() == 0 {
            0
        } else {
            1 + queries_from(advance_spec(depth, events[0]), events.drop_first())
        },
        _ => 0,
    }
}

/// The first action for a ray allowed `depth` bounces.
pub fn begin(depth: u32) -> (a: Action)
    ensures
        a == begin_spec(depth),
        depth == 0 ==> a == Action::Black,
        depth > 0 ==> a == (Action::Query { depth }),
{
    if depth == 0 {
        Action::Black
    } else {
        Action::Query { depth }
    }
}

/// The action after a query made with `depth` bounces remaining.
pub fn advance(depth: u32, event: Bounce) -> (a: Action)
    requires
        depth > 0,
    ensures
        a == advance_spec(depth, event),
{
    match event {
        Bounce::Missed => Action::Background,
        Bounce::Absorbed => Action::Black,
        Bounce::Scattered => begin(depth - 1),
    }
}

/// Whatever the scene returns, a ray allowed `depth` bounces makes at most
/// `depth` queries: the depth is a hard stop on every chain of bounces.
pub proof fn lemma_queries_bounded(depth: u32, events: Seq<Bounce>)
    ensures
        queries_from(begin_spec(depth), events) <= depth,
    decreases events.len(),
{
    if depth > 0 && events.len() > 0 {
        let rest = events.drop_first();
        assert(queries_from(begin_spec(depth), events) == 1 + queries_from(
            advance_spec(depth, events[0]),
            rest,
        ));
        match events[0] {
            Bounce::Scattered => {
                lemma_queries_bounded((depth - 1) as u32, rest);
            },
            _ => {},
        }
    }
}

} // verus!
