use verilog_sheet::error::PortError;
use verilog_sheet::error::WireError;

fn raise_wire_error() -> Result<(), WireError> {
    Err(WireError::UnDriver("test_wire".to_string(), 0))
}

fn collect_wire_error() -> Result<(), PortError> {
    let mut err_collector = Vec::new();
    let outcome = raise_wire_error().map_err(|e| err_collector.push(e));
    assert!(outcome.is_err());
    Err(PortError::Error1("test_port".to_string(), err_collector))
}

#[test]
fn test_error_delver() {
    match collect_wire_error() {
        Ok(_) => {
            println!("Ok")
        }
        Err(e) => {
            println!("err is {:?}", e);
            match e {
                PortError::Error1(name, errors) => {
                    assert_eq!(name, "test_port");
                    assert_eq!(errors.len(), 1);
                    assert!(matches!(&errors[0], WireError::UnDriver(n, 0) if n == "test_wire"));
                }
            }
        }
    }
    println!("Over")
}
