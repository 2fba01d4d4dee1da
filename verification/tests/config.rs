use mcu_simulater::config::{
    apply_topology, build_i2c_slave, parse_toml, parse_value, Decimal, TomlError, TomlValue,
    TopologyError, TopologyNode, ValueError,
};
use mcu_simulater::machine::rig::{I2cSlave, SpiSlave, UartSlave};
use mcu_simulater::machine::Machine;
use mcu_simulater::text::chars_of;

#[test]
fn parse_simple_topology() {
    let src = r#"
# 悬停场景拓扑
[[i2c_slave]]
port = 1
name = "mpu6050"
addr = 0x68
model = "mpu6050"
source = "imu"

[[uart_slave]]
port = 2
name = "gps"
model = "nmea_gga"
source = "gps"
"#;
    let secs = parse_toml(src).unwrap();
    assert_eq!(secs.len(), 2);
    assert_eq!(secs[0].name, "i2c_slave");
    assert!(secs[0].is_array);
    assert_eq!(secs[0].str_or("name", ""), "mpu6050");
    assert_eq!(secs[0].get("addr").unwrap().as_int(), Some(0x68));
    assert_eq!(secs[0].port_or(0), 1);
    assert_eq!(secs[1].name, "uart_slave");
    assert_eq!(secs[1].str_or("source", ""), "gps");
}

fn number(d: Option<Decimal<'_>>) -> Option<f64> {
    match d {
        Some(Decimal::Written(s)) => s.parse().ok(),
        Some(Decimal::Whole(v)) => Some(v as f64),
        None => None,
    }
}

#[test]
fn parse_hex_and_float() {
    let secs = parse_toml("[[a]]\nx = 0x1F\ny = 9.81\nz = -3\nb = true\ns = \"hi\"\n").unwrap();
    assert_eq!(secs[0].get("x").unwrap().as_int(), Some(31));
    assert_eq!(number(secs[0].get("y").unwrap().as_float()), Some(9.81));
    assert_eq!(secs[0].get("z").unwrap().as_int(), Some(-3));
    assert_eq!(secs[0].get("b").unwrap().as_bool(), Some(true));
    assert_eq!(secs[0].get("s").unwrap().as_str(), Some("hi"));
}

#[test]
fn parse_unknown_section_ok() {
    let err = parse_toml("[[unknown]]\nport = 1\n").unwrap();
    assert_eq!(err[0].name, "unknown");
}

#[test]
fn factory_i2c_slave() {
    let node = TopologyNode {
        bus: "i2c".into(),
        port: 1,
        name: "mpu6050".into(),
        model: "mpu6050".into(),
        source: "imu".into(),
        addr: Some(0x68),
    };
    let s = build_i2c_slave(&node).unwrap();
    assert_eq!(s.name(), "mpu6050");
    assert_eq!(s.addr7(), 0x68);
}

#[test]
fn factory_bad_combo() {
    let node = TopologyNode {
        bus: "i2c".into(),
        port: 1,
        name: "x".into(),
        model: "mpu6050".into(),
        source: "gps".into(),
        addr: None,
    };
    assert!(build_i2c_slave(&node).is_err());
}

#[test]
fn whole_numbers_count_as_decimals() {
    let secs = parse_toml("[a]\nx = 7\ny = 1e3\nz = \"1.5\"\n").unwrap();
    assert!(!secs[0].is_array);
    assert_eq!(number(secs[0].get("x").unwrap().as_float()), Some(7.0));
    assert_eq!(number(secs[0].get("y").unwrap().as_float()), Some(1000.0));
    assert_eq!(number(secs[0].get("z").unwrap().as_float()), None);
    assert_eq!(secs[0].get("w"), None);
    assert_eq!(secs[0].str_or("x", "none"), "none");
    assert_eq!(secs[0].port_or(4), 4);
}

#[test]
fn decimals_are_told_from_other_text() {
    let good = [
        "1.5", ".5", "5.", "-2.25e-3", "+1E6", "inf", "-Infinity", "NaN", "12345678901234567890",
    ];
    for s in good {
        assert!(s.parse::<f64>().is_ok());
        let v = parse_value(&chars_of(s));
        assert!(matches!(v, Ok(TomlValue::Float(t)) if t == s), "{}", s);
    }
    let bad = ["", ".", "e5", "1e", "1e+", "1.2.3", "1_000", "0.5f", "--1", "infinite", "[1]"];
    for s in bad {
        assert!(s.parse::<f64>().is_err());
        assert!(parse_value(&chars_of(s)).is_err(), "{}", s);
    }
}

#[test]
fn values_that_cannot_be_read() {
    assert!(matches!(parse_value(&chars_of("   ")), Err(ValueError::Empty)));
    assert!(matches!(parse_value(&chars_of("\"abc")), Err(ValueError::Unclosed(_))));
    assert!(matches!(parse_value(&chars_of("\"")), Err(ValueError::Unclosed(_))));
    assert!(matches!(parse_value(&chars_of("0xZZ")), Err(ValueError::BadHex(_))));
    assert!(matches!(parse_value(&chars_of("{a}")), Err(ValueError::Unsupported(_))));
    assert!(matches!(parse_value(&chars_of("0X10")), Ok(TomlValue::Int(16))));
    assert!(matches!(parse_value(&chars_of("false")), Ok(TomlValue::Bool(false))));
}

#[test]
fn lines_that_cannot_be_read() {
    assert!(matches!(parse_toml("\n[[ ]]"), Err(TomlError::EmptyName { line: 2 })));
    assert!(matches!(parse_toml("[a]\nhello"), Err(TomlError::NoEquals { line: 2, .. })));
    assert!(matches!(
        parse_toml("[a]\n\nx ="),
        Err(TomlError::BadValue { line: 3, error: ValueError::Empty })
    ));
    assert!(matches!(parse_toml("x = 1"), Err(TomlError::NoSection { line: 1, .. })));
    assert!(parse_toml("# only a comment\n").unwrap().is_empty());
}

#[test]
fn topology_attaches_the_devices() {
    let mut m = Machine::new_m4f();
    let nodes = apply_topology(
        &mut m,
        "[[i2c_slave]]\nport=1\nmodel=\"bmp280\"\nsource=\"baro\"\n\
         [[uart_slave]]\nport=2\nname=\"gps\"\nmodel=\"nmea_gga\"\nsource=\"gps\"\n\
         [[spi_slave]]\nport=3\nmodel=\"bmi088\"\nsource=\"imu\"\n",
    )
    .unwrap();
    assert_eq!(nodes.len(), 3);
    assert_eq!(nodes[0].bus, "i2c");
    assert_eq!(nodes[0].name, "i2c_slave");
    assert_eq!(nodes[0].addr, None);
    assert_eq!(nodes[1].name, "gps");
    assert_eq!(m.rig.i2c[0].slave, I2cSlave::Bmp280);
    assert_eq!(m.rig.i2c[0].place, 0);
    assert_eq!(m.rig.uart[0].slave, UartSlave::NmeaGps);
    assert_eq!(m.rig.uart[0].place, 1);
    assert_eq!(m.rig.spi[0].slave, SpiSlave::default_bmi088());
    assert_eq!(m.rig.spi[0].place, 2);
}

#[test]
fn topology_that_cannot_be_set_up() {
    let mut m = Machine::new_m4f();
    assert!(matches!(apply_topology(&mut m, "x"), Err(TopologyError::Toml(_))));
    assert!(matches!(apply_topology(&mut m, ""), Err(TopologyError::NoNodes)));
    assert!(matches!(
        apply_topology(&mut m, "[[can_slave]]\n"),
        Err(TopologyError::UnknownSection(n)) if n == "can_slave"
    ));
    assert!(matches!(
        apply_topology(&mut m, "[[i2c_slave]]\nmodel = \"mpu6050\"\n"),
        Err(TopologyError::Incomplete { name, .. }) if name == "i2c_slave"
    ));
    let half = "[[uart_slave]]\nmodel=\"sbus\"\nsource=\"sbus\"\n\
                [[spi_slave]]\nname=\"s\"\nmodel=\"bmi088\"\nsource=\"gps\"\n";
    assert!(matches!(
        apply_topology(&mut m, half),
        Err(TopologyError::NoModel { name, .. }) if name == "s"
    ));
    assert_eq!(m.rig.uart.len(), 1);
    assert_eq!(m.rig.spi.len(), 0);
}
