//! Settings, scripts and log lines.

use cpldicy_plugin::board::{Board, BoardConfig};
use cpldicy_plugin::host::{
    board_config_from_host, config_get_bool, config_get_u8_address, config_get_usize, lcd_line,
    rtc_time_from_host, scenario_from_host, scenario_resource, HostSettings, PluginState,
    ScenarioResource,
};
use cpldicy_plugin::scenario::Scenario;

fn some(text: &str) -> Option<String> {
    Some(text.to_string())
}

fn no_settings() -> HostSettings {
    HostSettings {
        pcf8574: None,
        eeprom: None,
        lm75: None,
        ltc2990: None,
        pcf8583: None,
        ds1307: None,
        ds1629: None,
        r2025: None,
        lcd: None,
        bmp280: None,
        bme680: None,
        am2320: None,
        fan: None,
        eeprom_size: None,
        lcd_columns: None,
        ltc2990_address: None,
        pcf8583_address: None,
        fan_address: None,
        pcf8583_time: None,
        ds1307_time: None,
        ds1629_time: None,
        r2025_time: None,
        eeprom_image: None,
    }
}

#[test]
fn flags_are_true_false_one_or_zero() {
    assert!(config_get_bool(&some("true"), false));
    assert!(config_get_bool(&some("1"), false));
    assert!(!config_get_bool(&some("false"), true));
    assert!(!config_get_bool(&some("0"), true));
    assert!(config_get_bool(&some("yes"), true));
    assert!(!config_get_bool(&some("TRUE"), false));
    assert!(config_get_bool(&None, true));
}

#[test]
fn sizes_are_decimal() {
    assert_eq!(config_get_usize(&some("512"), 7), 512);
    assert_eq!(config_get_usize(&some("+20"), 7), 20);
    assert_eq!(config_get_usize(&some(" 20"), 7), 7);
    assert_eq!(config_get_usize(&some("0x20"), 7), 7);
    assert_eq!(config_get_usize(&some(""), 7), 7);
    assert_eq!(config_get_usize(&some("+"), 7), 7);
    assert_eq!(config_get_usize(&some("99999999999999999999999"), 7), 7);
    assert_eq!(config_get_usize(&some(&usize::MAX.to_string()), 7), usize::MAX);
    assert_eq!(config_get_usize(&None, 7), 7);
}

#[test]
fn addresses_are_hexadecimal_or_decimal() {
    assert_eq!(config_get_u8_address(&some("0x4D"), 1), 0x4D);
    assert_eq!(config_get_u8_address(&some("0X9a"), 1), 0x9A);
    assert_eq!(config_get_u8_address(&some("  80\n"), 1), 80);
    assert_eq!(config_get_u8_address(&some("0x+1F"), 1), 0x1F);
    assert_eq!(config_get_u8_address(&some("0x100"), 1), 1);
    assert_eq!(config_get_u8_address(&some("256"), 1), 1);
    assert_eq!(config_get_u8_address(&some("0x"), 1), 1);
    assert_eq!(config_get_u8_address(&some("0x 4D"), 1), 1);
    assert_eq!(config_get_u8_address(&some("4D"), 1), 1);
    assert_eq!(config_get_u8_address(&some("   "), 1), 1);
    assert_eq!(config_get_u8_address(&None, 1), 1);
}

#[test]
fn a_time_that_cannot_be_read_is_logged_and_absent() {
    let mut log = vec!["before".to_string()];
    assert_eq!(rtc_time_from_host("ds1307_time", &None, &mut log), None);
    let time = rtc_time_from_host("ds1307_time", &some("2026-08-16 14:30:05"), &mut log);
    assert_eq!(time.unwrap().year, 2026);
    assert_eq!(log.len(), 1);
    assert_eq!(rtc_time_from_host("r2025_time", &some("noon"), &mut log), None);
    assert_eq!(
        log[1],
        "cpldicy: r2025_time config error: expected \"YYYY-MM-DD HH:MM:SS\", got \"noon\""
    );
}

#[test]
fn without_settings_the_board_is_the_default_one() {
    let (config, log) = board_config_from_host(no_settings());
    assert!(log.is_empty());
    let board = Board::with_config(config);
    assert_eq!(
        board.device_addresses,
        [("pcf8574", 0x20), ("ltc2990", 0x4C), ("fan", 0x50)]
    );
    assert_eq!(board.lcd_columns, 16);
}

#[test]
fn settings_make_the_board() {
    let (config, log) = board_config_from_host(HostSettings {
        pcf8574: some("0"),
        eeprom: some("true"),
        eeprom_size: some("300"),
        eeprom_image: Some(vec![1, 2, 3]),
        lm75: some("1"),
        ltc2990_address: some("0x4D"),
        pcf8583: some("1"),
        pcf8583_address: some("0x51"),
        pcf8583_time: some("2026-13-01 00:00:00"),
        ds1307: some("1"),
        ds1307_time: some("2026-08-16 14:30:05"),
        lcd: some("true"),
        lcd_columns: some("20"),
        fan_address: some("not an address"),
        r2025_time: some("x"),
        ..no_settings()
    });
    assert_eq!(
        log,
        [
            "cpldicy: pcf8583_time config error: month 13 out of range 1-12",
            "cpldicy: r2025_time config error: expected \"YYYY-MM-DD HH:MM:SS\", got \"x\""
        ]
    );
    assert_eq!(config.eeprom_size, 300);
    assert_eq!(config.eeprom_image, Some(vec![1, 2, 3]));
    assert_eq!(config.pcf8583_time, None);
    assert_eq!(config.ds1307_time.unwrap().month, 8);
    assert_eq!(config.lcd_columns, 20);
    let board = Board::with_config(config);
    assert_eq!(
        board.device_addresses,
        [
            ("eeprom", 0x54),
            ("lm75", 0x48),
            ("ltc2990", 0x4D),
            ("pcf8583", 0x51),
            ("ds1307", 0x68),
            ("lcd", 0x27),
            ("fan", 0x50)
        ]
    );
}

#[test]
fn scripts_of_the_host() {
    let (script, line) = scenario_from_host(&ScenarioResource::Absent, &Vec::new());
    assert!(script.events.is_empty() && line.is_none());
    let (script, line) = scenario_from_host(&ScenarioResource::NotUtf8, &Vec::new());
    assert!(script.events.is_empty());
    assert_eq!(line.unwrap(), "cpldicy: scenario resource is not valid UTF-8");
    let good = ScenarioResource::Text("5 set lm75.celsius 1".to_string());
    let (script, line) = scenario_from_host(&good, &vec![Some(2)]);
    assert!(script.events.len() == 1 && line.is_none());
    let bad = ScenarioResource::Text("\n5 wobble".to_string());
    let (script, line) = scenario_from_host(&bad, &Vec::new());
    assert!(script.events.is_empty());
    assert_eq!(line.unwrap(), "cpldicy: scenario parse error: line 2: unknown verb 'wobble'");
}

#[test]
fn a_tick_plays_the_script_and_reports_the_display() {
    let config = BoardConfig { lcd_enabled: true, lcd_columns: 4, ..BoardConfig::default() };
    let script = Scenario::parse("100 fault fan stuck_rotor\n", &Vec::new()).unwrap();
    let mut state = PluginState::new(config, script);
    assert_eq!(state.tick(50).unwrap(), "cpldicy: lcd: \"    \" / \"    \"");
    assert_eq!(state.tick(50), None);
    assert_eq!(state.scenario.next, 1);
    assert_eq!(state.scenario.elapsed_cck, 100);
}

#[test]
fn the_display_line_joins_its_rows() {
    assert_eq!(lcd_line("\"a\"", "\"b\""), "cpldicy: lcd: \"a\" / \"b\"");
}

#[test]
fn the_script_is_read_as_utf8() {
    assert!(matches!(scenario_resource(None), ScenarioResource::Absent));
    let text = "5 fault \u{e9}\u{20ac}\u{1f600} ok";
    match scenario_resource(Some(text.as_bytes().to_vec())) {
        ScenarioResource::Text(read) => assert_eq!(read, text),
        _ => panic!("not taken as text"),
    }
    assert!(matches!(scenario_resource(Some(Vec::new())), ScenarioResource::Text(_)));
    for bytes in [vec![0xFF], vec![b'a', 0xC3], vec![0xC0, 0x80], vec![0xED, 0xA0, 0x80]] {
        assert!(matches!(scenario_resource(Some(bytes)), ScenarioResource::NotUtf8));
    }
}
