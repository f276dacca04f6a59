use cpython_json::errors::JsonError;
use cpython_json::host::PyExcKind;
use cpython_json::native::Native;
use cpython_json::to_json;

#[test]
fn test_unserializable() {
    // A date-time object is not JSON serializable: encoding fails with a
    // TypeError carrying the type name and the rendering of the value.
    let min = Native::Other(
        "datetime.datetime".to_string(),
        Ok("datetime.datetime(1, 1, 1, 0, 0)".to_string()),
    );
    let err = to_json(min).unwrap_err().to_pyerr();
    assert_eq!(err.ptype, PyExcKind::TypeError);
    assert_eq!(
        err.pvalue.unwrap(),
        "datetime.datetime(1, 1, 1, 0, 0) is not JSON serializable"
    );
    assert_eq!(err.ptraceback, None);
}

#[test]
fn test_jsonerror_debug() {
    println!("{:?}", JsonError::DictKeyNotString(Native::Null));
}

#[test]
fn test_to_pyerr_python() {
    let err = JsonError::PythonError(JsonError::DictKeyNotString(Native::Null).to_pyerr())
        .to_pyerr();
    assert_eq!(err.ptype, PyExcKind::TypeError);
    assert_eq!(err.pvalue.unwrap(), "keys must be a string");
    assert_eq!(err.ptraceback, None);
}

#[test]
fn test_to_pyerr_type_failed_repr() {
    let err = JsonError::TypeError(
        "datetime.datetime".to_string(),
        Err(JsonError::DictKeyNotString(Native::Null).to_pyerr()),
    )
    .to_pyerr();
    assert_eq!(err.ptype, PyExcKind::TypeError);
    assert_eq!(err.pvalue.unwrap(), "keys must be a string");
    assert_eq!(err.ptraceback, None);
}

#[test]
fn test_to_pyerr_dkns() {
    let err = JsonError::DictKeyNotString(Native::Null).to_pyerr();
    assert_eq!(err.ptype, PyExcKind::TypeError);
    assert_eq!(err.pvalue.unwrap(), "keys must be a string");
    assert_eq!(err.ptraceback, None);
}

#[test]
fn test_to_pyerr_invalid_float() {
    let err = JsonError::InvalidFloat.to_pyerr();
    assert_eq!(err.ptype, PyExcKind::ValueError);
    assert_eq!(err.pvalue.unwrap(), "inf and nan are not supported in JSON");
    assert_eq!(err.ptraceback, None);
}

#[test]
fn test_to_pyerr_impossible_number() {
    let err = JsonError::ImpossibleNumber.to_pyerr();
    assert_eq!(err.ptype, PyExcKind::ValueError);
    assert_eq!(
        err.pvalue.unwrap(),
        "a value was somehow not an integer or float"
    );
    assert_eq!(err.ptraceback, None);
}
