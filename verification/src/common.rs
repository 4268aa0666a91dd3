//! Shared definitions: alignment helpers, the kernel error taxonomy, and the
//! `KernelResult` type every component operation returns.

use vstd::prelude::*;

verus! {

/// True when `align` is a power of two; the alignment helpers only accept such
/// alignments.
pub open spec fn is_pow2(align: usize) -> bool
    decreases align,
{
    if align == 0 {
        false
    } else if align == 1 {
        true
    } else {
        align % 2 == 0 && is_pow2(align / 2)
    }
}

/// Facts about `value % align` that the alignment helpers need.
proof fn lemma_align_rem(value: usize, align: usize)
    requires
        align > 0,
    ensures
        0 <= value % align < align,
        value % align <= value,
        (value - value % align) % (align as int) == 0,
{
    vstd::arithmetic::div_mod::lemma_mod_division_less_than_divisor(value as int, align as int);
    vstd::arithmetic::div_mod::lemma_mod_decreases(value as nat, align as nat);
    vstd::arithmetic::div_mod::lemma_sub_mod_noop(
        value as int,
        (value % align) as int,
        align as int,
    );
    vstd::arithmetic::div_mod::lemma_mod_twice(value as int, align as int);
    vstd::arithmetic::div_mod::lemma_small_mod(0nat, align as nat);
}

pub fn is_aligned(value: usize, align: usize) -> (r: bool)
    requires
        align > 0,
    ensures
        r == (value % align == 0),
{
    value % align == 0
}

/// Rounds `value` up to the next multiple of `align`.
pub fn align_up(value: usize, align: usize) -> (r: usize)
    requires
        is_pow2(align),
        value + align - 1 <= usize::MAX,
    ensures
        r % align == 0,
        value <= r < value + align,
{
    proof {
        lemma_pow2_pos(align);
        lemma_align_rem(value, align);
    }
    let rem: usize = value % align;
    if rem == 0 {
        value
    } else {
        assert((value - rem + align) % (align as int) == 0) by {
            lemma_align_rem(value, align);
            vstd::arithmetic::div_mod::lemma_mod_add_multiples_vanish(
                (value - rem) as int,
                align as int,
            );
        }
        value - rem + align
    }
}

/// Rounds `value` down to a multiple of `align`.
pub fn align_down(value: usize, align: usize) -> (r: usize)
    requires
        is_pow2(align),
    ensures
        r % align == 0,
        r <= value < r + align,
{
    proof {
        lemma_pow2_pos(align);
        lemma_align_rem(value, align);
    }
    let rem: usize = value % align;
    value - rem
}

pub proof fn lemma_pow2_pos(align: usize)
    requires
        is_pow2(align),
    ensures
        align > 0,
{
}

/// The closed taxonomy of recoverable kernel errors; every component-level
/// operation either succeeds or reports exactly one of these kinds.
#[derive(Debug, Clone, Copy, PartialEq, Eq, Structural)]
pub enum ErrKind {
    NoMemory,
    TooManyTasks,
    PteNotFound,
    OutOfMemory,
    ProcessNotFound,
    MessageBoxIsFull,
    InvalidUserAddress,
    UnknownCapType,
    UnexpectedCapType,
    CanNotNewFromDeviceMemory,
    NoEnoughSlot,
    NotEmptySlot,
    SlotIsEmpty,
    VaddressAlreadyMapped,
    PageTableAlreadyMapped,
    PageAlreadyMapped,
    PageTableNotMappedYet,
    UnknownInvocation,
    CanNotDerivable,
    InvalidOperation,
}

/// Source location of a failing check, carried only for diagnostics.
#[derive(Debug, Clone, Copy)]
pub struct EPlace {
    pub e_line: u32,
    pub e_column: u32,
    pub e_file: &'static str,
}

/// An error kind plus an optional numeric detail and an optional source place.
#[derive(Debug, Clone, Copy)]
pub struct KernelError {
    pub e_kind: ErrKind,
    pub e_val: u16,
    pub e_place: Option<EPlace>,
}

impl KernelError {
    pub fn new(kind: ErrKind) -> (r: KernelError)
        ensures
            r.e_kind == kind,
            r.e_val == 0,
    {
        KernelError { e_kind: kind, e_val: 0, e_place: None }
    }
}

pub type KernelResult<T> = Result<T, KernelError>;

/// One IPC message: a payload word plus the badge of the capability it
/// was sent through, delivered to the receiver unmodified.
#[derive(Debug, Clone, Copy, PartialEq, Eq, Structural)]
pub struct Message {
    pub data: usize,
    pub badge: usize,
}

} // verus!
