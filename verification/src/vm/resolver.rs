//! The address resolver: from a segment and an index to the plan by which
//! the emitted code reaches the cell.

use vstd::prelude::*;
use crate::assembly::MAX_ADDRESS;
use crate::vm::command::Segment;

verus! {

/// The fixed cells of the machine that the translator names.
#[derive(Clone, Copy, Debug, PartialEq, Eq, Structural)]
pub enum VmAddress {
    SP,
    LCL,
    ARG,
    THIS,
    THAT,
    TEMP,
    R13,
    R14,
    R15,
    STATIC,
}

impl VmAddress {
    /// The address of the cell.
    pub open spec fn address(self) -> nat {
        match self {
            VmAddress::SP => 0,
            VmAddress::LCL => 1,
            VmAddress::ARG => 2,
            VmAddress::THIS => 3,
            VmAddress::THAT => 4,
            VmAddress::TEMP => 5,
            VmAddress::R13 => 13,
            VmAddress::R14 => 14,
            VmAddress::R15 => 15,
            VmAddress::STATIC => 16,
        }
    }

    /// The address of the cell.
    pub fn as_usize(&self) -> (a: usize)
        ensures
            a == self.address(),
    {
        match self {
            VmAddress::SP => 0,
            VmAddress::LCL => 1,
            VmAddress::ARG => 2,
            VmAddress::THIS => 3,
            VmAddress::THAT => 4,
            VmAddress::TEMP => 5,
            VmAddress::R13 => 13,
            VmAddress::R14 => 14,
            VmAddress::R15 => 15,
            VmAddress::STATIC => 16,
        }
    }
}

/// How the emitted code reaches what a segment and an index name.
#[derive(Clone, Copy, Debug, PartialEq, Eq, Structural)]
pub enum AddressPlan {
    /// No cell: the number itself, which can be pushed and nothing else.
    Literal(usize),
    /// The cell at this address, known when translating.
    Fixed(usize),
    /// The cell at the address that the base register `base` holds when
    /// the code runs, plus `offset`.
    Indirect { base: usize, offset: usize },
}

/// Why a command cannot be lowered: its segment and its index name
/// nothing, or it is no command of the kind asked for, or it declares a
/// label that only the translator may declare.
#[derive(Clone, Copy, Debug, PartialEq, Eq, Structural)]
pub enum ResolverError {
    /// The index of `pointer` is neither 0 nor 1.
    InvalidPointerIndex,
    /// The number, address or offset is larger than an address instruction
    /// can load.
    OutOfRange,
    /// A pop names `constant`, which is no cell.
    PopToConstant,
    /// A command that is neither a push nor a pop was handed over as one.
    NotPushOrPop,
    /// A `label` command declares a name of the form of the internal
    /// labels, which are kept for the translator's own branches and
    /// return sites.
    ReservedLabel,
}

/// The plan for `segment` and `index`.
pub open spec fn plan_of(segment: Segment, index: nat) -> Result<AddressPlan, ResolverError> {
    match segment {
        Segment::Constant => if index <= MAX_ADDRESS {
            Ok(AddressPlan::Literal(index as usize))
        } else {
            Err(ResolverError::OutOfRange)
        },
        Segment::Pointer => if index == 0 {
            Ok(AddressPlan::Fixed(3))
        } else if index == 1 {
            Ok(AddressPlan::Fixed(4))
        } else {
            Err(ResolverError::InvalidPointerIndex)
        },
        Segment::Temp => if 5 + index <= MAX_ADDRESS {
            Ok(AddressPlan::Fixed((5 + index) as usize))
        } else {
            Err(ResolverError::OutOfRange)
        },
        Segment::Static => if 16 + index <= MAX_ADDRESS {
            Ok(AddressPlan::Fixed((16 + index) as usize))
        } else {
            Err(ResolverError::OutOfRange)
        },
        Segment::Local => indirect_plan(1, index),
        Segment::Argument => indirect_plan(2, index),
        Segment::This => indirect_plan(3, index),
        Segment::That => indirect_plan(4, index),
    }
}

/// The plan for the cell `index` of the segment whose base register is the
/// cell `base`.
pub open spec fn indirect_plan(base: nat, index: nat) -> Result<AddressPlan, ResolverError> {
    if index <= MAX_ADDRESS {
        Ok(AddressPlan::Indirect { base: base as usize, offset: index as usize })
    } else {
        Err(ResolverError::OutOfRange)
    }
}

/// The plan for a place that a pop can write: as [`plan_of`], but for
/// `constant`, which is no cell.
pub open spec fn cell_plan_of(segment: Segment, index: nat) -> Result<AddressPlan, ResolverError> {
    if segment == Segment::Constant {
        Err(ResolverError::PopToConstant)
    } else {
        plan_of(segment, index)
    }
}

fn indirect(base: VmAddress, index: usize) -> (r: Result<AddressPlan, ResolverError>)
    requires
        base.address() <= 4,
    ensures
        r == indirect_plan(base.address(), index as nat),
{
    if index <= MAX_ADDRESS {
        Ok(AddressPlan::Indirect { base: base.as_usize(), offset: index })
    } else {
        Err(ResolverError::OutOfRange)
    }
}

fn fixed(base: VmAddress, index: usize) -> (r: Result<AddressPlan, ResolverError>)
    requires
        base.address() <= 16,
    ensures
        r == (if base.address() + index <= MAX_ADDRESS {
            Ok::<AddressPlan, ResolverError>(
                AddressPlan::Fixed((base.address() + index) as usize),
            )
        } else {
            Err::<AddressPlan, ResolverError>(ResolverError::OutOfRange)
        }),
{
    let start = base.as_usize();
    if index <= MAX_ADDRESS - start {
        Ok(AddressPlan::Fixed(start + index))
    } else {
        Err(ResolverError::OutOfRange)
    }
}

/// Resolves `segment` and `index` to a plan.
pub fn resolve(segment: Segment, index: usize) -> (r: Result<AddressPlan, ResolverError>)
    ensures
        r == plan_of(segment, index as nat),
{
    match segment {
        Segment::Constant => {
            if index <= MAX_ADDRESS {
                Ok(AddressPlan::Literal(index))
            } else {
                Err(ResolverError::OutOfRange)
            }
        },
        Segment::Pointer => {
            if index == 0 {
                fixed(VmAddress::THIS, 0)
            } else if index == 1 {
                fixed(VmAddress::THAT, 0)
            } else {
                Err(ResolverError::InvalidPointerIndex)
            }
        },
        Segment::Temp => fixed(VmAddress::TEMP, index),
        Segment::Static => fixed(VmAddress::STATIC, index),
        Segment::Local => indirect(VmAddress::LCL, index),
        Segment::Argument => indirect(VmAddress::ARG, index),
        Segment::This => indirect(VmAddress::THIS, index),
        Segment::That => indirect(VmAddress::THAT, index),
    }
}

/// Resolves `segment` and `index` to the plan of a cell that can be written.
pub fn resolve_cell(segment: Segment, index: usize) -> (r: Result<AddressPlan, ResolverError>)
    ensures
        r == cell_plan_of(segment, index as nat),
        r is Ok ==> !(r->Ok_0 is Literal),
{
    match segment {
        Segment::Constant => Err(ResolverError::PopToConstant),
        _ => resolve(segment, index),
    }
}

} // verus!
