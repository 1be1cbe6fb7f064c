//! The capability registry: capabilities with their reliabilities, the
//! policy hook, and the interpretation entry point.
//!
//! Capability handlers are user code outside the protocol engine: the
//! registry records which capabilities exist and how reliable they are, and
//! the caller dispatches execution results back into the engine.

use vstd::prelude::*;

use crate::confidence::SCALE;
use crate::interpreter::{interp_ensures, InterpretationResult, KeywordInterpreter};
use crate::message::{Capability, Context, Request};

verus! {

/// The first index whose capability has the given id, or -1.
pub open spec fn find_id(caps: Seq<Capability>, id: Seq<char>) -> int
    decreases caps.len(),
{
    if caps.len() == 0 {
        -1
    } else if caps[0]@.id == id {
        0
    } else {
        let rest = find_id(caps.drop_first(), id);
        if rest < 0 {
            -1
        } else {
            rest + 1
        }
    }
}

/// `find_id` returns -1 or the first matching index.
pub proof fn lemma_find_id(caps: Seq<Capability>, id: Seq<char>)
    ensures
        find_id(caps, id) == -1 ==> forall|j: int| 0 <= j < caps.len() ==> (#[trigger] caps[j])@.id
            != id,
        find_id(caps, id) != -1 ==> 0 <= find_id(caps, id) < caps.len() && caps[find_id(
            caps,
            id,
        )]@.id == id && forall|j: int| 0 <= j < find_id(caps, id) ==> (#[trigger] caps[j])@.id
            != id,
    decreases caps.len(),
{
    if caps.len() > 0 && caps[0]@.id != id {
        let rest = caps.drop_first();
        lemma_find_id(rest, id);
        assert(rest.len() == caps.len() - 1);
        assert forall|j: int| 0 <= j < rest.len() implies #[trigger] rest[j] == caps[j + 1] by {}
        let fr = find_id(rest, id);
        if fr == -1 {
            assert forall|j: int| 0 <= j < caps.len() implies (#[trigger] caps[j])@.id != id by {
                if j > 0 {
                    assert(caps[j] == rest[j - 1]);
                }
            }
        } else {
            assert(find_id(caps, id) == fr + 1);
            assert(caps[fr + 1] == rest[fr]);
            assert forall|j: int| 0 <= j < fr + 1 implies (#[trigger] caps[j])@.id != id by {
                if j > 0 {
                    assert(caps[j] == rest[j - 1]);
                }
            }
        }
    }
}

/// Registry of server capabilities.
pub struct CapabilityRegistry {
    capabilities: Vec<Capability>,
    reliabilities: Vec<u64>,
    interpreter: KeywordInterpreter,
}

impl CapabilityRegistry {
    /// The registered capabilities, in registration order.
    pub closed spec fn spec_capabilities(self) -> Seq<Capability> {
        self.capabilities@
    }

    /// The reliabilities, aligned with the capabilities.
    pub closed spec fn spec_reliabilities(self) -> Seq<u64> {
        self.reliabilities@
    }

    /// The interpreter in use.
    pub closed spec fn spec_interpreter(self) -> KeywordInterpreter {
        self.interpreter
    }

    /// Well-formed: one reliability per capability, each in the unit
    /// interval; capability ids unique; interpreter parameters in range.
    pub open spec fn wf(self) -> bool {
        &&& self.spec_capabilities().len() == self.spec_reliabilities().len()
        &&& forall|i: int|
            0 <= i < self.spec_reliabilities().len() ==> #[trigger] self.spec_reliabilities()[i]
                <= SCALE
        &&& forall|i: int, j: int|
            0 <= i < j < self.spec_capabilities().len() ==> (
            #[trigger] self.spec_capabilities()[i])@.id != (
            #[trigger] self.spec_capabilities()[j])@.id
        &&& self.spec_interpreter().wf()
    }

    /// Create an empty registry with the default keyword interpreter.
    pub fn new() -> (r: CapabilityRegistry)
        ensures
            r.wf(),
            r.spec_capabilities().len() == 0,
            r.spec_interpreter() == (KeywordInterpreter {
                match_weight: 1_000_000u64,
                min_score: 200_000u64,
            }),
    {
        CapabilityRegistry {
            capabilities: Vec::new(),
            reliabilities: Vec::new(),
            interpreter: KeywordInterpreter::default(),
        }
    }

    /// Create an empty registry with a custom interpreter.
    pub fn with_interpreter(interpreter: KeywordInterpreter) -> (r: CapabilityRegistry)
        requires
            interpreter.wf(),
        ensures
            r.wf(),
            r.spec_capabilities().len() == 0,
            r.spec_interpreter() == interpreter,
    {
        CapabilityRegistry { capabilities: Vec::new(), reliabilities: Vec::new(), interpreter }
    }

    /// The index of the capability with this id, if registered.
    fn find_index(&self, id: &str) -> (r: Option<usize>)
        ensures
            r matches Some(i) ==> i as int == find_id(self.spec_capabilities(), id@),
            r is None ==> find_id(self.spec_capabilities(), id@) == -1,
    {
        proof {
            lemma_find_id(self.spec_capabilities(), id@);
        }
        let mut i: usize = 0;
        while i < self.capabilities.len()
            invariant
                0 <= i <= self.capabilities@.len(),
                self.capabilities@ == self.spec_capabilities(),
                forall|j: int| 0 <= j < i ==> (#[trigger] self.capabilities@[j])@.id != id@,
            decreases self.capabilities@.len() - i,
        {
            if crate::strutil::str_eq(self.capabilities[i].id.as_str(), id) {
                proof {
                    lemma_find_id(self.spec_capabilities(), id@);
                }
                return Some(i);
            }
            i += 1;
        }
        proof {
            lemma_find_id(self.spec_capabilities(), id@);
        }
        None
    }

    /// Register a capability with a reliability, clamped into the unit
    /// interval.  Re-registering an existing id replaces the prior entry.
    pub fn register(&mut self, capability: Capability, reliability: u64)
        requires
            old(self).wf(),
        ensures
            final(self).wf(),
            final(self).spec_interpreter() == old(self).spec_interpreter(),
            ({
                let clamped: u64 = if reliability <= SCALE {
                    reliability
                } else {
                    SCALE
                };
                let i = find_id(old(self).spec_capabilities(), capability@.id);
                if i >= 0 {
                    final(self).spec_capabilities() == old(self).spec_capabilities().update(
                        i,
                        capability,
                    ) && final(self).spec_reliabilities() == old(self).spec_reliabilities().update(
                        i,
                        clamped,
                    )
                } else {
                    final(self).spec_capabilities() == old(self).spec_capabilities().push(
                        capability,
                    ) && final(self).spec_reliabilities() == old(self).spec_reliabilities().push(
                        clamped,
                    )
                }
            }),
    {
        let clamped: u64 = if reliability <= SCALE {
            reliability
        } else {
            SCALE
        };
        proof {
            lemma_find_id(self.spec_capabilities(), capability@.id);
        }
        let slot = self.find_index(capability.id.as_str());
        match slot {
            Some(i) => {
                self.capabilities.set(i, capability);
                self.reliabilities.set(i, clamped);
            },
            None => {
                self.capabilities.push(capability);
                self.reliabilities.push(clamped);
            },
        }
    }

    /// All capability ids, in registration order.
    pub fn capability_ids(&self) -> (r: Vec<String>)
        ensures
            r@.len() == self.spec_capabilities().len(),
            forall|i: int|
                0 <= i < r@.len() ==> (#[trigger] r@[i])@ == self.spec_capabilities()[i]@.id,
    {
        let mut out: Vec<String> = Vec::new();
        let mut i: usize = 0;
        while i < self.capabilities.len()
            invariant
                0 <= i <= self.capabilities@.len(),
                self.capabilities@ == self.spec_capabilities(),
                out@.len() == i,
                forall|j: int|
                    0 <= j < i ==> (#[trigger] out@[j])@ == self.spec_capabilities()[j]@.id,
            decreases self.capabilities@.len() - i,
        {
            out.push(self.capabilities[i].id.clone());
            i += 1;
        }
        out
    }

    /// Copies of all capabilities, in registration order.
    pub fn capabilities(&self) -> (r: Vec<Capability>)
        ensures
            r@.len() == self.spec_capabilities().len(),
            forall|i: int|
                0 <= i < r@.len() ==> (#[trigger] r@[i])@ == self.spec_capabilities()[i]@,
    {
        let mut out: Vec<Capability> = Vec::new();
        let mut i: usize = 0;
        while i < self.capabilities.len()
            invariant
                0 <= i <= self.capabilities@.len(),
                self.capabilities@ == self.spec_capabilities(),
                out@.len() == i,
                forall|j: int| 0 <= j < i ==> (#[trigger] out@[j])@ == self.spec_capabilities()[j]@,
            decreases self.capabilities@.len() - i,
        {
            out.push(self.capabilities[i].clone());
            i += 1;
        }
        out
    }

    /// The reliability of a capability, or 0 when the id is unknown.
    pub fn get_reliability(&self, id: &str) -> (r: u64)
        requires
            self.wf(),
        ensures
            r <= SCALE,
            ({
                let i = find_id(self.spec_capabilities(), id@);
                if i >= 0 {
                    r == self.spec_reliabilities()[i]
                } else {
                    r == 0
                }
            }),
    {
        proof {
            lemma_find_id(self.spec_capabilities(), id@);
        }
        match self.find_index(id) {
            Some(i) => self.reliabilities[i],
            None => 0,
        }
    }

    /// The policy hook.  Policy enforcement is a hook, not an implemented
    /// subsystem: every request passes.
    pub fn check_policy(&self, request: &Request) -> (r: bool)
        ensures
            r == true,
    {
        true
    }

    /// Interpret an intent against the registered capabilities.
    pub fn interpret(&self, intent: &str, context: &Context) -> (r: InterpretationResult)
        requires
            self.wf(),
        ensures
            interp_ensures(self.spec_interpreter(), intent@, self.spec_capabilities(), r),
    {
        self.interpreter.interpret(intent, context, &self.capabilities)
    }
}

impl Default for CapabilityRegistry {
    /// An empty registry with the default keyword interpreter.
    fn default() -> (r: CapabilityRegistry)
        ensures
            r.wf(),
            r.spec_capabilities().len() == 0,
    {
        CapabilityRegistry::new()
    }
}

} // verus!
