//! Whether a node is well, and whether it is ready.
use vstd::prelude::*;

verus! {

/// What a node says of itself.
#[derive(Debug, Clone, Copy, PartialEq, Eq, Structural)]
pub enum Health {
    /// It is well.
    Well,
    /// It is ready; whether it has room for another instance.
    Ready { can_spawn: bool },
    /// It is going down.
    Draining,
    NoModels,
    BinaryMissing,
}

/// How well a node is: it needs models, and a binary to run them.
pub open spec fn wellness(has_models: bool, binary_available: bool) -> Health {
    if !has_models {
        Health::NoModels
    } else if !binary_available {
        Health::BinaryMissing
    } else {
        Health::Well
    }
}

/// Whether a node is well: it has models, and a binary to run them.
pub fn healthz(has_models: bool, binary_available: bool) -> (r: Health)
    ensures
        r == wellness(has_models, binary_available),
{
    if !has_models {
        Health::NoModels
    } else if !binary_available {
        Health::BinaryMissing
    } else {
        Health::Well
    }
}

/// What a node has in use, and may use at most, in MiB.
#[derive(Debug, Clone, Copy, PartialEq, Eq, Structural)]
pub struct Load {
    pub vram_mb: u64,
    pub sysmem_mb: u64,
    pub max_vram_mb: u64,
    pub max_sysmem_mb: u64,
}

/// How ready a node is: one that goes down is not, nor one without a binary or without models. A
/// node without room is ready all the same.
pub open spec fn readiness(
    draining: bool,
    binary_available: bool,
    has_models: bool,
    can_serve: bool,
    load: Load,
) -> Health {
    if draining {
        Health::Draining
    } else if !binary_available {
        Health::BinaryMissing
    } else if !has_models {
        Health::NoModels
    } else {
        Health::Ready {
            can_spawn: can_serve && load.vram_mb < load.max_vram_mb && load.sysmem_mb
                < load.max_sysmem_mb,
        }
    }
}

/// Whether a node is ready for requests. `can_serve` says whether the binary is there at this
/// moment.
pub fn readyz(
    draining: bool,
    binary_available: bool,
    has_models: bool,
    can_serve: bool,
    load: Load,
) -> (r: Health)
    ensures
        r == readiness(draining, binary_available, has_models, can_serve, load),
{
    if draining {
        Health::Draining
    } else if !binary_available {
        Health::BinaryMissing
    } else if !has_models {
        Health::NoModels
    } else {
        Health::Ready {
            can_spawn: can_serve && load.vram_mb < load.max_vram_mb && load.sysmem_mb
                < load.max_sysmem_mb,
        }
    }
}

impl Health {
    /// The HTTP status: success if the node is well or ready, else unavailable.
    pub fn http_status(&self) -> (r: u16)
        ensures
            r == if self is Well || self is Ready {
                200u16
            } else {
                503u16
            },
    {
        match *self {
            Health::Well => 200,
            Health::Ready { .. } => 200,
            _ => 503,
        }
    }

    /// The word for it, as the answer to whether the node is well (`ready` false) or ready.
    pub fn status_word(&self, ready: bool) -> (r: &'static str)
        ensures
            r@ == match *self {
                Health::Well => "ok"@,
                Health::Ready { .. } => "ready"@,
                Health::Draining => "draining"@,
                _ => if ready {
                    "not_ready"@
                } else {
                    "error"@
                },
            },
    {
        match *self {
            Health::Well => "ok",
            Health::Ready { .. } => "ready",
            Health::Draining => "draining",
            _ => if ready {
                "not_ready"
            } else {
                "error"
            },
        }
    }

    /// What is amiss.
    pub fn message(&self) -> (r: Option<&'static str>)
        ensures
            match *self {
                Health::Well => r is None,
                Health::Ready { .. } => r is None,
                Health::Draining => r is Some && r->0@ == "Node is draining"@,
                Health::NoModels => r is Some && r->0@ == "No models configured"@,
                Health::BinaryMissing => r is Some && r->0@ == "Binary missing"@,
            },
    {
        match *self {
            Health::Well => None,
            Health::Ready { .. } => None,
            Health::Draining => Some("Node is draining"),
            Health::NoModels => Some("No models configured"),
            Health::BinaryMissing => Some("Binary missing"),
        }
    }
}

/// A node that is ready is well.
pub proof fn law_ready_implies_well(
    draining: bool,
    binary_available: bool,
    has_models: bool,
    can_serve: bool,
    load: Load,
)
    requires
        readiness(draining, binary_available, has_models, can_serve, load) is Ready,
    ensures
        wellness(has_models, binary_available) == Health::Well,
{
}

/// A node is well exactly if it has models and a binary, and what it lacks is named: models before
/// the binary.
pub proof fn law_what_makes_well(has_models: bool, binary_available: bool)
    ensures
        wellness(has_models, binary_available) == Health::Well <==> has_models && binary_available,
        wellness(has_models, binary_available) == Health::NoModels <==> !has_models,
        wellness(has_models, binary_available) == Health::BinaryMissing <==> has_models
            && !binary_available,
{
}

/// A node is ready exactly if it does not go down and has a binary and models. It has room for
/// another instance if the binary is there and both memories are below their limits, and having
/// none does not make it unready.
pub proof fn law_what_makes_ready(
    draining: bool,
    binary_available: bool,
    has_models: bool,
    can_serve: bool,
    load: Load,
)
    ensures
        ({
            let h = readiness(draining, binary_available, has_models, can_serve, load);
            &&& h is Ready <==> !draining && binary_available && has_models
            &&& h == Health::Draining <==> draining
            &&& h == Health::BinaryMissing <==> !draining && !binary_available
            &&& h == Health::NoModels <==> !draining && binary_available && !has_models
            &&& h is Ready ==> (h == Health::Ready { can_spawn: true } <==> can_serve
                && load.vram_mb < load.max_vram_mb && load.sysmem_mb < load.max_sysmem_mb)
        }),
{
}

} // verus!
