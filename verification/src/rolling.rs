use vstd::prelude::*;
use crate::dtype::DataType;
use crate::options::ClosedWindow;

verus! {

/// What a window function needs to know beyond its window.
#[derive(Clone, Copy, Debug, PartialEq, Eq, Structural)]
pub enum RollingFnParams {
    /// The degrees of freedom that a variance gives up.
    Var { ddof: u8 },
    Skew { bias: bool },
    Kurtosis { fisher: bool, bias: bool },
}

/// A window of a fixed number of rows.
#[derive(Clone, Copy, Debug, PartialEq, Eq, Structural)]
pub struct RollingOptionsFixedWindow {
    pub window_size: usize,
    /// The number of values that a window must hold to give a result.
    pub min_periods: usize,
    /// Whether the rows of a window are weighted.
    pub weighted: bool,
    /// Whether a window is centred on its row.
    pub center: bool,
    pub fn_params: Option<RollingFnParams>,
}

/// A window of a length of time over the values of another column.
#[derive(Debug)]
pub struct RollingOptionsDynamicWindow {
    /// The length of the window, as the query writes it.
    pub window_size: String,
    pub min_periods: usize,
    pub closed_window: ClosedWindow,
    pub fn_params: Option<RollingFnParams>,
}

/// The window of `window_size` rows. Where no least number of values is
/// given, a window must be full to give a result.
pub fn fixed_window(
    window_size: usize,
    weighted: bool,
    min_periods: Option<usize>,
    center: bool,
    fn_params: Option<RollingFnParams>,
) -> (o: RollingOptionsFixedWindow)
    ensures
        o == (RollingOptionsFixedWindow {
            window_size,
            min_periods: match min_periods {
                Some(n) => n,
                None => window_size,
            },
            weighted,
            center,
            fn_params,
        }),
{
    let min_periods = match min_periods {
        Some(n) => n,
        None => window_size,
    };
    RollingOptionsFixedWindow { window_size, min_periods, weighted, center, fn_params }
}

/// The type of a floating-point result for values of type `d`.
pub open spec fn float_type(d: DataType) -> DataType {
    match d {
        DataType::Float32 => DataType::Float32,
        _ => DataType::Float64,
    }
}

/// The type of the column that a function given by the user makes of the
/// windows of a column of type `dtype`: a floating-point type where the
/// windows are weighted, else the type of the column.
pub fn map_output_dtype(weighted: bool, dtype: &DataType) -> (r: DataType)
    ensures
        r == if weighted {
            float_type(*dtype)
        } else {
            *dtype
        },
{
    if weighted {
        match dtype {
            DataType::Float32 => DataType::Float32,
            _ => DataType::Float64,
        }
    } else {
        dtype.clone()
    }
}

/// Whether a single value that a function given by the user returns can be
/// taken as a value of type `dtype`: it can for the integer and the
/// floating-point types.
pub fn map_accepts(dtype: &DataType) -> (b: bool)
    ensures
        b == crate::expr::is_numeric(*dtype),
{
    match dtype {
        DataType::UInt8 | DataType::UInt16 | DataType::UInt32 | DataType::UInt64 | DataType::Int8
        | DataType::Int16 | DataType::Int32 | DataType::Int64 | DataType::Float32
        | DataType::Float64 => true,
        _ => false,
    }
}

} // verus!
