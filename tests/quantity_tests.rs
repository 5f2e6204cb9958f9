use kube_rm::{extract_quantity, format_cpu, format_memory, parse_cpu, parse_memory};
use kube_rm::{AppError, QuantityEntry, QuantityKind, ResourceValue};

#[test]
fn test_parse_cpu() {
    assert_eq!(parse_cpu("1").unwrap().as_millicores(), 1000);
    assert_eq!(parse_cpu("500m").unwrap().as_millicores(), 500);
    assert_eq!(parse_cpu("").unwrap().as_millicores(), 0);
    assert!(parse_cpu("invalid").is_err());
}

#[test]
fn test_parse_memory() {
    assert_eq!(parse_memory("1Gi").unwrap().as_bytes(), 1024 * 1024 * 1024);
    assert_eq!(parse_memory("1Mi").unwrap().as_bytes(), 1024 * 1024);
    assert_eq!(parse_memory("1Ki").unwrap().as_bytes(), 1024);
    assert_eq!(parse_memory("").unwrap().as_bytes(), 0);
    assert!(parse_memory("invalid").is_err());
}

#[test]
fn test_format_cpu() {
    assert_eq!(format_cpu(ResourceValue(1000)), "1");
    assert_eq!(format_cpu(ResourceValue(500)), "500m");
    assert_eq!(format_cpu(ResourceValue(0)), "");
}

#[test]
fn test_format_memory() {
    assert_eq!(format_memory(ResourceValue(1024 * 1024 * 1024)), "1Gi");
    assert_eq!(format_memory(ResourceValue(1024 * 1024)), "1Mi");
    assert_eq!(format_memory(ResourceValue(1024)), "1Ki");
    assert_eq!(format_memory(ResourceValue(0)), "");
}

#[test]
fn parse_cpu_cores_and_millicores() {
    assert_eq!(parse_cpu("2").unwrap().0, 2000);
    assert_eq!(parse_cpu("+3").unwrap().0, 3000);
    assert_eq!(parse_cpu("-5m").unwrap().0, -5);
    assert_eq!(parse_cpu("0500m").unwrap().0, 500);
}

#[test]
fn parse_cpu_strips_only_one_m() {
    assert!(matches!(parse_cpu("5mm"), Err(AppError::ParseError(_))));
}

#[test]
fn parse_cpu_rejects_other_text() {
    for bad in ["bad", "m", "1.5", "2k", "-", "+m", " 1", "1 "] {
        match parse_cpu(bad) {
            Err(AppError::ParseError(_)) => {}
            other => panic!("{:?} gave {:?}", bad, other),
        }
    }
}

#[test]
fn parse_cpu_rejects_amounts_past_i64() {
    assert!(parse_cpu("9223372036854775807").is_err());
    assert!(parse_cpu("9223372036854776").is_err());
    assert_eq!(parse_cpu("9223372036854775").unwrap().0, 9223372036854775000);
    assert_eq!(parse_cpu("9223372036854775807m").unwrap().0, i64::MAX);
    assert_eq!(parse_cpu("-9223372036854775808m").unwrap().0, i64::MIN);
    assert!(parse_cpu("9223372036854775808m").is_err());
}

#[test]
fn parse_memory_units() {
    assert_eq!(parse_memory("2Gi").unwrap().0, 2147483648);
    assert_eq!(parse_memory("1000").unwrap().0, 1000);
    assert!(matches!(parse_memory("3MiMi"), Err(AppError::ParseError(_))));
    assert!(matches!(parse_memory("1KiGi"), Err(AppError::ParseError(_))));
    assert!(parse_memory("1Ti").is_err());
    assert!(parse_memory("Gi").is_err());
    assert!(parse_memory("1.5Gi").is_err());
    assert!(parse_memory("8589934592Gi").is_err());
    assert_eq!(parse_memory("8589934591Gi").unwrap().0, 8589934591 * 1073741824);
}

#[test]
fn format_cpu_one_decimal_ties_to_even() {
    assert_eq!(format_cpu(ResourceValue(1500)), "1.5");
    assert_eq!(format_cpu(ResourceValue(1250)), "1.2");
    assert_eq!(format_cpu(ResourceValue(1350)), "1.4");
    assert_eq!(format_cpu(ResourceValue(1260)), "1.3");
    assert_eq!(format_cpu(ResourceValue(1999)), "2.0");
    assert_eq!(format_cpu(ResourceValue(2000)), "2");
    assert_eq!(format_cpu(ResourceValue(999)), "999m");
    assert_eq!(format_cpu(ResourceValue(-5)), "-5m");
}

#[test]
fn format_memory_units() {
    assert_eq!(format_memory(ResourceValue(1536)), "1.5Ki");
    assert_eq!(format_memory(ResourceValue(512)), "512B");
    assert_eq!(format_memory(ResourceValue(1610612736)), "1.5Gi");
    assert_eq!(format_memory(ResourceValue(1342177280)), "1.2Gi");
    assert_eq!(format_memory(ResourceValue(3 * 1048576)), "3Mi");
    assert_eq!(format_memory(ResourceValue(1023)), "1023B");
    assert_eq!(format_memory(ResourceValue(-7)), "-7B");
}

#[test]
fn parse_then_format_round_trip() {
    assert_eq!(format_cpu(parse_cpu("250m").unwrap()), "250m");
    assert_eq!(format_memory(parse_memory("512Mi").unwrap()), "512Mi");
}

fn entry(resource: &str, quantity: &str) -> QuantityEntry {
    QuantityEntry { resource: resource.to_string(), quantity: quantity.to_string() }
}

#[test]
fn extract_quantity_reads_the_named_entry() {
    let map = Some(vec![entry("memory", "1Ki"), entry("cpu", "250m")]);
    assert_eq!(extract_quantity(&map, "cpu", QuantityKind::Cpu).0, 250);
    assert_eq!(extract_quantity(&map, "memory", QuantityKind::Memory).0, 1024);
}

#[test]
fn extract_quantity_defaults_to_zero() {
    let map = Some(vec![entry("cpu", "lots")]);
    assert_eq!(extract_quantity(&map, "cpu", QuantityKind::Cpu).0, 0);
    assert_eq!(extract_quantity(&map, "memory", QuantityKind::Memory).0, 0);
    assert_eq!(extract_quantity(&None, "cpu", QuantityKind::Cpu).0, 0);
}

#[test]
fn extract_quantity_takes_the_first_match() {
    let map = Some(vec![entry("cpu", "1"), entry("cpu", "2")]);
    assert_eq!(extract_quantity(&map, "cpu", QuantityKind::Cpu).0, 1000);
}

#[test]
fn error_message_names_the_kind() {
    assert_eq!(AppError::ParseError("x".to_string()).message(), "Parse Error: x");
    assert_eq!(AppError::KubeError("down".to_string()).message(), "Kubernetes Error: down");
    assert_eq!(AppError::IoError("tty".to_string()).message(), "IO Error: tty");
    match parse_memory("12Qi") {
        Err(e) => assert!(e.message().starts_with("Parse Error: ")),
        Ok(v) => panic!("parsed {:?}", v),
    }
}
