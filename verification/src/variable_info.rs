use vstd::prelude::*;
use crate::analyzer_state::OwnershipState;
use crate::text::copy_string;

verus! {

/// Where the memory a pointer refers to lives.
#[derive(Debug, Clone, Copy, PartialEq, Eq, Structural)]
pub enum AllocKind {
    Heap,
    Stack,
    /// Heap memory that another place now owns (after `dst = p;`): frees and uses through the
    /// pointer are still checked, but the end of its scope is no leak.
    HeapAlias,
}

/// What the analysis tracks for one variable.
#[derive(Debug, Clone, PartialEq)]
pub struct VariableInfo {
    pub state: OwnershipState,
    pub scope_depth: usize,
    pub alloc_kind: AllocKind,
    pub points_to: Option<String>,
}

/// The mathematical value of a `VariableInfo`: its strings taken as character sequences.
pub struct InfoView {
    pub state: OwnershipState,
    pub scope_depth: usize,
    pub alloc_kind: AllocKind,
    pub points_to: Option<Seq<char>>,
}

pub open spec fn opt_string_view(o: Option<String>) -> Option<Seq<char>> {
    match o {
        Some(s) => Some(s@),
        None => None,
    }
}

impl View for VariableInfo {
    type V = InfoView;

    open spec fn view(&self) -> InfoView {
        InfoView {
            state: self.state,
            scope_depth: self.scope_depth,
            alloc_kind: self.alloc_kind,
            points_to: opt_string_view(self.points_to),
        }
    }
}

/// Copies an optional string, keeping its contents.
pub fn copy_opt_string(o: &Option<String>) -> (r: Option<String>)
    ensures
        opt_string_view(r) == opt_string_view(*o),
{
    match o {
        Some(s) => Some(copy_string(s)),
        None => None,
    }
}

impl VariableInfo {
    /// A heap allocation made at `scope_depth` (`p = malloc(..)`).
    pub fn heap(scope_depth: usize) -> (r: Self)
        ensures
            r@ == (InfoView {
                state: OwnershipState::Allocated,
                scope_depth,
                alloc_kind: AllocKind::Heap,
                points_to: None,
            }),
    {
        VariableInfo {
            state: OwnershipState::Allocated,
            scope_depth,
            alloc_kind: AllocKind::Heap,
            points_to: None,
        }
    }

    /// A stack variable declared without a value we track.
    pub fn stack(scope_depth: usize) -> (r: Self)
        ensures
            r@ == (InfoView {
                state: OwnershipState::Uninitialized,
                scope_depth,
                alloc_kind: AllocKind::Stack,
                points_to: None,
            }),
    {
        VariableInfo {
            state: OwnershipState::Uninitialized,
            scope_depth,
            alloc_kind: AllocKind::Stack,
            points_to: None,
        }
    }

    /// A pointer set to `NULL`.
    pub fn null(scope_depth: usize) -> (r: Self)
        ensures
            r@ == (InfoView {
                state: OwnershipState::Null,
                scope_depth,
                alloc_kind: AllocKind::Stack,
                points_to: None,
            }),
    {
        VariableInfo {
            state: OwnershipState::Null,
            scope_depth,
            alloc_kind: AllocKind::Stack,
            points_to: None,
        }
    }

    /// A pointer declared with an initializer that is not modelled (`T *p = (T *)raw;`):
    /// initialized and non-null, pointing to nothing the analysis knows of.
    pub fn opaque_init(scope_depth: usize) -> (r: Self)
        ensures
            r@ == (InfoView {
                state: OwnershipState::Allocated,
                scope_depth,
                alloc_kind: AllocKind::Stack,
                points_to: None,
            }),
    {
        VariableInfo {
            state: OwnershipState::Allocated,
            scope_depth,
            alloc_kind: AllocKind::Stack,
            points_to: None,
        }
    }

    /// A function parameter: initialized by the caller, never a heap leak of this
    /// function, and pinned to depth 0 so that it outlives the body's own scope.
    pub fn param() -> (r: Self)
        ensures
            r@ == (InfoView {
                state: OwnershipState::Allocated,
                scope_depth: 0,
                alloc_kind: AllocKind::Stack,
                points_to: None,
            }),
    {
        VariableInfo {
            state: OwnershipState::Allocated,
            scope_depth: 0,
            alloc_kind: AllocKind::Stack,
            points_to: None,
        }
    }

    /// A copy with the same contents.
    pub fn duplicate(&self) -> (r: Self)
        ensures
            r@ == self@,
    {
        VariableInfo {
            state: self.state,
            scope_depth: self.scope_depth,
            alloc_kind: self.alloc_kind,
            points_to: copy_opt_string(&self.points_to),
        }
    }

    /// Whether two records have the same contents.
    pub fn same_as(&self, other: &VariableInfo) -> (r: bool)
        ensures
            r == (self@ == other@),
    {
        if self.state != other.state || self.scope_depth != other.scope_depth
            || self.alloc_kind != other.alloc_kind {
            return false;
        }
        match &self.points_to {
            Some(a) => match &other.points_to {
                Some(b) => {
                    let e = (*a).eq(b);
                    proof {
                        if e {
                            assert(self@.points_to == other@.points_to);
                        } else {
                            assert(self@.points_to != other@.points_to);
                        }
                    }
                    e
                },
                None => false,
            },
            None => other.points_to.is_none(),
        }
    }
}

} // verus!
