//! The number of dimensions of a puzzle, as a script hands it over.

use vstd::prelude::*;

verus! {

/// Largest number of dimensions that a puzzle can have.
pub const MAX_NDIM: u8 = 7;

/// A number of dimensions that a script gave: at least one and at most
/// [`MAX_NDIM`].
#[derive(Debug, Copy, Clone, PartialEq, Eq, Structural, Hash)]
pub struct LuaNdim(pub u8);

/// Why a script's number of dimensions cannot be taken.
#[derive(Debug, Copy, Clone, PartialEq, Eq, Structural)]
pub enum NdimError {
    /// The number is below one or above [`MAX_NDIM`].
    OutOfRange,
    /// The script gave no number, and the global variable `NDIM` is not set.
    Unknown,
}

impl NdimError {
    /// What the script's author is told.
    pub fn message(self) -> (r: String)
        ensures
            r@ == (match self {
                NdimError::OutOfRange => "out of range"@,
                NdimError::Unknown =>
                    "unknown number of dimensions; set global `NDIM` variable or pass NDIM as argument"@,
            }),
    {
        match self {
            NdimError::OutOfRange => String::from_str("out of range"),
            NdimError::Unknown => String::from_str(
                "unknown number of dimensions; set global `NDIM` variable or pass NDIM as argument",
            ),
        }
    }
}

impl LuaNdim {
    /// The number of dimensions for an integer of the script, if the
    /// integer is one.
    pub fn try_from(value: i64) -> (r: Result<LuaNdim, NdimError>)
        ensures
            r is Ok <==> 1 <= value <= MAX_NDIM,
            r matches Ok(ndim) ==> ndim.0 == value,
            r matches Err(e) ==> e == NdimError::OutOfRange,
    {
        if 1 <= value && value <= MAX_NDIM as i64 {
            Ok(LuaNdim(value as u8))
        } else {
            Err(NdimError::OutOfRange)
        }
    }

    /// The number of dimensions that the argument of a script stands for:
    /// the argument itself, or else what the global variable `NDIM` holds.
    pub fn from_lua(argument: Option<i64>, global: Option<i64>) -> (r: Result<LuaNdim, NdimError>)
        ensures
            r == (match argument {
                Some(value) => LuaNdim::ndim_of(value),
                None => LuaNdim::global_ndim(global),
            }),
    {
        match argument {
            Some(value) => LuaNdim::try_from(value),
            None => match LuaNdim::get_global(global) {
                Ok(ndim) => Ok(LuaNdim(ndim)),
                Err(e) => Err(e),
            },
        }
    }

    /// The number of dimensions for an integer.
    pub open spec fn ndim_of(value: i64) -> Result<LuaNdim, NdimError> {
        if 1 <= value <= MAX_NDIM {
            Ok(LuaNdim(value as u8))
        } else {
            Err(NdimError::OutOfRange)
        }
    }

    /// The number of dimensions that the global variable stands for.
    pub open spec fn global_ndim(global: Option<i64>) -> Result<LuaNdim, NdimError> {
        match global {
            Some(value) => LuaNdim::ndim_of(value),
            None => Err(NdimError::Unknown),
        }
    }

    /// The number of dimensions that the global variable `NDIM` gives;
    /// `global` is what the variable holds, if it is set.
    pub fn get_global(global: Option<i64>) -> (r: Result<u8, NdimError>)
        ensures
            r is Ok <==> (global matches Some(value) && 1 <= value <= MAX_NDIM),
            r matches Ok(ndim) ==> global == Some(ndim as i64),
            r matches Err(e) ==> e == (if global is None {
                NdimError::Unknown
            } else {
                NdimError::OutOfRange
            }),
    {
        match global {
            None => Err(NdimError::Unknown),
            Some(value) => match LuaNdim::try_from(value) {
                Ok(ndim) => Ok(ndim.0),
                Err(e) => Err(e),
            },
        }
    }
}

} // verus!
