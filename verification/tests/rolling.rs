use plancore::dtype::DataType;
use plancore::rolling::fixed_window;
use plancore::rolling::map_accepts;
use plancore::rolling::map_output_dtype;
use plancore::rolling::RollingFnParams;
use plancore::rolling::RollingOptionsFixedWindow;

#[test]
fn a_window_without_a_least_count_must_be_full() {
    let o = fixed_window(5, false, None, true, None);
    assert_eq!(
        o,
        RollingOptionsFixedWindow {
            window_size: 5,
            min_periods: 5,
            weighted: false,
            center: true,
            fn_params: None,
        }
    );
}

#[test]
fn a_given_least_count_is_kept() {
    let o = fixed_window(5, true, Some(2), false, Some(RollingFnParams::Var { ddof: 1 }));
    assert_eq!(o.window_size, 5);
    assert_eq!(o.min_periods, 2);
    assert!(o.weighted);
    assert!(!o.center);
    assert_eq!(o.fn_params, Some(RollingFnParams::Var { ddof: 1 }));
    assert_eq!(fixed_window(0, false, Some(9), false, None).min_periods, 9);
}

#[test]
fn weighted_windows_give_floating_point_columns() {
    assert_eq!(map_output_dtype(true, &DataType::Int32), DataType::Float64);
    assert_eq!(map_output_dtype(true, &DataType::Float32), DataType::Float32);
    assert_eq!(map_output_dtype(true, &DataType::Float64), DataType::Float64);
    assert_eq!(map_output_dtype(false, &DataType::Int32), DataType::Int32);
    assert_eq!(map_output_dtype(false, &DataType::String), DataType::String);
}

#[test]
fn only_numbers_are_taken_from_a_user_function() {
    assert!(map_accepts(&DataType::UInt8));
    assert!(map_accepts(&DataType::Int64));
    assert!(map_accepts(&DataType::Float32));
    assert!(!map_accepts(&DataType::Boolean));
    assert!(!map_accepts(&DataType::String));
    assert!(!map_accepts(&DataType::List(Box::new(DataType::Int8))));
}
