//! The scoping rules of nested frames.
//!
//! A chain of frames runs from the current one (index 0) out to the root.
//! Reading a name finds its innermost binding. Assigning updates the
//! innermost binding when it is reachable, declares the name in the current
//! frame when nothing binds it, and refuses to write past a function frame or
//! into the frame of the native functions.
use vstd::prelude::*;

verus! {

#[derive(Debug, Clone, Copy, PartialEq, Eq, Structural)]
pub enum FrameKind {
    Builtins,
    Module,
    Block,
    Function,
}

/// Why an assignment is refused.
#[derive(Debug, PartialEq, Eq)]
pub enum AssignError {
    /// The name belongs to a frame outside the function being run.
    FunctionBoundary { name: String },
    /// The name is a native function.
    Builtin { name: String },
}

/// A frame as the scoping rules see it: its kind, and whether it binds the
/// name at hand.
#[derive(Debug, Clone, Copy, PartialEq, Eq, Structural)]
pub struct FrameInfo {
    pub kind: FrameKind,
    pub binds: bool,
}

/// The innermost frame of `chain`, from `i` on, that binds the name.
pub open spec fn binding_from(chain: Seq<FrameInfo>, i: int) -> Option<int>
    decreases chain.len() - i,
{
    if i < 0 || i >= chain.len() {
        None
    } else if chain[i].binds {
        Some(i)
    } else {
        binding_from(chain, i + 1)
    }
}

/// The innermost frame of `chain` that binds the name.
pub open spec fn innermost_binding(chain: Seq<FrameInfo>) -> Option<int> {
    binding_from(chain, 0)
}

/// Some frame before the `k`-th is a function frame.
pub open spec fn crosses_function(chain: Seq<FrameInfo>, k: int) -> bool {
    exists|j: int| 0 <= j < k && chain[j].kind == FrameKind::Function
}

/// How an assignment is refused, without the name.
pub enum Refusal {
    FunctionBoundary,
    Builtin,
}

/// Where `nome = valor` writes in `chain`: the frame index, or why it is refused.
pub open spec fn assign_place(chain: Seq<FrameInfo>) -> Result<int, Refusal> {
    match innermost_binding(chain) {
        None => Ok(0),
        Some(k) => if crosses_function(chain, k) {
            Err(Refusal::FunctionBoundary)
        } else if chain[k].kind == FrameKind::Builtins {
            Err(Refusal::Builtin)
        } else {
            Ok(k)
        },
    }
}

proof fn lemma_binding_from(chain: Seq<FrameInfo>, i: int)
    requires
        0 <= i <= chain.len(),
    ensures
        binding_from(chain, i) matches Some(k) ==> i <= k < chain.len() && chain[k].binds
            && forall|j: int| i <= j < k ==> !chain[j].binds,
        binding_from(chain, i) is None ==> forall|j: int| i <= j < chain.len() ==> !chain[j].binds,
    decreases chain.len() - i,
{
    if i < chain.len() && !chain[i].binds {
        lemma_binding_from(chain, i + 1);
    }
}

/// The frame whose binding a read of the name sees: the innermost one.
pub fn lookup_frame(chain: &Vec<FrameInfo>) -> (r: Option<usize>)
    ensures
        match innermost_binding(chain@) {
            Some(k) => r == Some(k as usize),
            None => r is None,
        },
{
    let mut i: usize = 0;
    while i < chain.len()
        invariant
            0 <= i <= chain@.len(),
            innermost_binding(chain@) == binding_from(chain@, i as int),
        decreases chain@.len() - i,
    {
        if chain[i].binds {
            return Some(i);
        }
        i = i + 1;
    }
    None
}

/// The frame that `name = valor` writes in `chain` (0 when the name is new:
/// it is declared in the current frame), or why it is refused.
pub fn assign_frame(chain: &Vec<FrameInfo>, name: &str) -> (r: Result<usize, AssignError>)
    requires
        chain@.len() > 0,
    ensures
        match assign_place(chain@) {
            Ok(k) => r == Ok::<usize, AssignError>(k as usize),
            Err(Refusal::FunctionBoundary) => r matches Err(AssignError::FunctionBoundary { name: n })
                && n@ == name@,
            Err(Refusal::Builtin) => r matches Err(AssignError::Builtin { name: n }) && n@ == name@,
        },
{
    let mut crossed = false;
    let mut i: usize = 0;
    while i < chain.len()
        invariant
            0 <= i <= chain@.len(),
            innermost_binding(chain@) == binding_from(chain@, i as int),
            forall|j: int| 0 <= j < i ==> !chain@[j].binds,
            crossed == crosses_function(chain@, i as int),
        decreases chain@.len() - i,
    {
        let f = chain[i];
        if f.binds {
            if crossed {
                return Err(AssignError::FunctionBoundary { name: name.to_owned() });
            }
            if f.kind == FrameKind::Builtins {
                return Err(AssignError::Builtin { name: name.to_owned() });
            }
            return Ok(i);
        }
        if f.kind == FrameKind::Function {
            crossed = true;
        }
        proof {
            assert(crossed == crosses_function(chain@, i + 1)) by {
                if chain@[i as int].kind == FrameKind::Function {
                    assert(crosses_function(chain@, i + 1));
                } else if crosses_function(chain@, i + 1) {
                    let j = choose|j: int| 0 <= j < i + 1 && chain@[j].kind == FrameKind::Function;
                    assert(j < i);
                }
            }
        }
        i = i + 1;
    }
    Ok(0)
}

/// A read after an allowed assignment finds the frame that was written:
/// once that frame binds the name, it is the innermost binding.
pub proof fn law_read_after_assign(chain: Seq<FrameInfo>)
    requires
        chain.len() > 0,
        assign_place(chain) is Ok,
    ensures
        innermost_binding(
            chain.update(
                assign_place(chain)->Ok_0,
                FrameInfo { kind: chain[assign_place(chain)->Ok_0].kind, binds: true },
            ),
        ) == Some(assign_place(chain)->Ok_0),
{
    let k = assign_place(chain)->Ok_0;
    let c2 = chain.update(k, FrameInfo { kind: chain[k].kind, binds: true });
    lemma_binding_from(chain, 0);
    lemma_binding_from(c2, 0);
    match innermost_binding(chain) {
        None => {
            assert(c2[0].binds);
        },
        Some(b) => {
            assert(b == k);
            if innermost_binding(c2) != Some(k) {
                assert(c2[k].binds);
            }
        },
    }
}

/// A function never writes a name it finds outside itself, and nobody
/// writes into the frame of the native functions.
pub proof fn law_assign_respects_boundaries(chain: Seq<FrameInfo>)
    requires
        chain.len() > 0,
        assign_place(chain) is Ok,
    ensures
        !crosses_function(chain, assign_place(chain)->Ok_0),
        chain[assign_place(chain)->Ok_0].kind != FrameKind::Builtins || innermost_binding(chain)
            is None,
{
}

} // verus!
