use dc_generator::dc_metrics::ServerMetricsGenerator;
use dc_generator::metric::Metric;
use dc_generator::reading::Reading;
use dc_generator::text::{
    decimal_digits, push_decimal, push_escaped_char, push_fixed_point, push_quoted, push_signed,
    push_zero_padded, same_text,
};

fn reading(zone: &str, metric: Metric, value: i64) -> Reading {
    Reading {
        event_id: "0b6f4b9e-8c55-4a35-9d61-3d1c2c1f7a10".to_string(),
        host_id: "srv-01-rack-01".to_string(),
        zone: zone.to_string(),
        timestamp: 1_700_000_000_123,
        metric,
        value,
    }
}

fn fixed(v: i64) -> String {
    let mut s = String::new();
    push_fixed_point(&mut s, v);
    s
}

#[test]
fn record_has_the_fields_in_order() {
    let text = reading("zone-A", Metric::CpuUsage, 52_500_000).to_json();
    assert_eq!(
        text,
        "{\"event_id\":\"0b6f4b9e-8c55-4a35-9d61-3d1c2c1f7a10\",\"host_id\":\"srv-01-rack-01\",\
         \"zone\":\"zone-A\",\"timestamp\":1700000000123,\"metric\":\"CPU_USAGE\",\
         \"value\":52.500000,\"unit\":\"%\",\"tags\":{}}"
    );
}

#[test]
fn record_reads_back_as_json() {
    let r = reading("zone \"B\"\\\n\u{1}\u{1f} é", Metric::CpuTemp, 61_234_567);
    let value: serde_json::Value = serde_json::from_str(&r.to_json()).unwrap();
    let object = value.as_object().unwrap();
    assert_eq!(object.len(), 8);
    assert_eq!(object["event_id"].as_str(), Some(r.event_id.as_str()));
    assert_eq!(object["host_id"].as_str(), Some("srv-01-rack-01"));
    assert_eq!(object["zone"].as_str(), Some("zone \"B\"\\\n\u{1}\u{1f} é"));
    assert_eq!(object["timestamp"].as_i64(), Some(1_700_000_000_123));
    assert_eq!(object["metric"].as_str(), Some("CPU_TEMP"));
    assert_eq!(object["value"].as_f64(), Some(61.234567));
    assert_eq!(object["unit"].as_str(), Some("°C"));
    assert_eq!(object["tags"].as_object().map(|tags| tags.len()), Some(0));
}

#[test]
fn unit_follows_the_metric() {
    assert_eq!(reading("z", Metric::DiskIoRead, 1).unit().symbol(), "MB/s");
    assert_eq!(reading("z", Metric::CpuTemp, 1).unit().symbol(), "°C");
    assert!(reading("z", Metric::DiskIoRead, 1).to_json().contains("\"unit\":\"MB/s\""));
    assert!(reading("z", Metric::CpuTemp, 1).to_json().contains("\"unit\":\"°C\""));
    assert!(reading("z", Metric::MemUsage, 1).to_json().contains("\"unit\":\"%\""));
}

#[test]
fn message_of_the_generator_reads_back_as_json() {
    let mut zone = ServerMetricsGenerator::new("zone-D".to_string(), 40);
    for _ in 0..300 {
        let sent = zone.next().unwrap();
        let value: serde_json::Value = serde_json::from_str(&sent.message).unwrap();
        let object = value.as_object().unwrap();
        assert_eq!(object.len(), 8);
        assert_eq!(object["host_id"].as_str(), Some(sent.host_id.as_str()));
        assert_eq!(object["zone"].as_str(), Some("zone-D"));
        assert_eq!(object["event_id"].as_str().unwrap().len(), 36);
        assert!(object["timestamp"].as_i64().unwrap() > 1_600_000_000_000);
        let metric = Metric::from_name(object["metric"].as_str().unwrap()).unwrap();
        assert_eq!(object["unit"].as_str(), Some(metric.unit().symbol()));
        let v = object["value"].as_f64().unwrap();
        assert!(v >= 0.0);
        match metric {
            Metric::CpuUsage | Metric::MemUsage => assert!(v <= 100.0),
            Metric::CpuTemp => assert!(20.0 <= v && v <= 100.0),
            _ => {}
        }
        assert!(object["tags"].as_object().unwrap().is_empty());
    }
}

#[test]
fn quoted_strings_are_escaped_as_serde_json_does() {
    let mut samples: Vec<String> = vec![
        String::new(),
        "plain".to_string(),
        "quote \" backslash \\ slash /".to_string(),
        "\u{8}\u{c}\n\r\t".to_string(),
        "\u{7f}\u{80}\u{ff} é € 😀 \u{2028}".to_string(),
    ];
    samples.push((0u8..0x20).map(|b| b as char).collect());
    samples.push((0x20u8..0x7f).map(|b| b as char).collect());
    for sample in samples {
        let mut quoted = String::new();
        push_quoted(&mut quoted, &sample);
        assert_eq!(quoted, serde_json::to_string(&sample).unwrap());
    }
}

#[test]
fn control_characters_are_written_in_hexadecimal() {
    let mut s = String::new();
    push_escaped_char(&mut s, '\u{0}');
    push_escaped_char(&mut s, '\u{b}');
    push_escaped_char(&mut s, '\u{1f}');
    push_escaped_char(&mut s, '\u{1a}');
    push_escaped_char(&mut s, ' ');
    push_escaped_char(&mut s, '"');
    assert_eq!(s, "\\u0000\\u000b\\u001f\\u001a \\\"");
    let mut appended = "x".to_string();
    push_quoted(&mut appended, "a\"b");
    assert_eq!(appended, "x\"a\\\"b\"");
}

#[test]
fn fixed_point_has_six_digits_after_the_point() {
    assert_eq!(fixed(0), "0.000000");
    assert_eq!(fixed(1), "0.000001");
    assert_eq!(fixed(999_999), "0.999999");
    assert_eq!(fixed(1_000_000), "1.000000");
    assert_eq!(fixed(50_000_000), "50.000000");
    assert_eq!(fixed(52_500_000), "52.500000");
    assert_eq!(fixed(100_000_000), "100.000000");
    assert_eq!(fixed(123_456_789_012), "123456.789012");
    assert_eq!(fixed(i64::MAX), "9223372036854.775807");
    assert_eq!(fixed(-1), "-0.000001");
    assert_eq!(fixed(-2_500_000), "-2.500000");
    assert_eq!(fixed(i64::MIN), "-9223372036854.775808");
}

#[test]
fn fixed_point_reads_back_as_the_value() {
    for v in [0i64, 1, 45_000_000, 54_999_999, 99_999_990, 100_000_000, 214_499_857] {
        let parsed: f64 = fixed(v).parse().unwrap();
        assert!((parsed * 1e6 - v as f64).abs() < 0.5);
        let json: serde_json::Value = serde_json::from_str(&fixed(v)).unwrap();
        assert_eq!(json.as_f64(), Some(parsed));
    }
}

#[test]
fn decimal_numbers_are_written_as_std_writes_them() {
    for n in [0u128, 1, 9, 10, 11, 99, 100, 12_345, u64::MAX as u128, u128::MAX] {
        let mut s = "n=".to_string();
        push_decimal(&mut s, n);
        assert_eq!(s, format!("n={}", n));
        let digits: String = decimal_digits(n).into_iter().collect();
        assert_eq!(digits, n.to_string());
    }
    for i in [0i64, 7, -7, 1_700_000_000_123, i64::MAX, i64::MIN] {
        let mut s = String::new();
        push_signed(&mut s, i);
        assert_eq!(s, i.to_string());
    }
}

#[test]
fn zero_padding_fills_up_to_the_width() {
    for (n, width) in [(0u128, 0usize), (0, 1), (0, 2), (7, 2), (10, 2), (100, 2), (5, 6), (123_456, 6), (1_234_567, 6)] {
        let mut s = String::new();
        push_zero_padded(&mut s, n, width);
        assert_eq!(s, format!("{:0width$}", n, width = width));
    }
}

#[test]
fn same_text_compares_character_by_character() {
    assert!(same_text("", ""));
    assert!(same_text("kafka", "kafka"));
    assert!(same_text("°C", "\u{b0}C"));
    assert!(!same_text("kafka", "kafkb"));
    assert!(!same_text("kafka", "kafk"));
    assert!(!same_text("", " "));
    assert!(!same_text("Kafka", "kafka"));
}

#[test]
fn written_numbers_read_back() {
    for n in [0u64, 1, 9, 10, 99, 100, 65_535, 1_700_000_000_123, u64::MAX] {
        let digits = decimal_digits(n as u128);
        assert_eq!(
            dc_generator::scan::parse_unsigned(&digits, 0, digits.len(), u64::MAX),
            Some(n)
        );
        let mut padded = String::new();
        push_zero_padded(&mut padded, n as u128, 6);
        let chars: Vec<char> = padded.chars().collect();
        assert_eq!(
            dc_generator::scan::parse_unsigned(&chars, 0, chars.len(), u64::MAX),
            Some(n)
        );
    }
}
