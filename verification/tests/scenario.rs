//! Scripts.

use cpldicy_plugin::board::{Board, BoardConfig};
use cpldicy_plugin::bus_device::BusDevice;
use cpldicy_plugin::scenario::{Channel, Event, Scenario};

fn reading(channel: Channel, text: &str) -> Option<i32> {
    let value: f32 = text.parse().ok()?;
    Some(match channel {
        Channel::Ltc2990Tint | Channel::Ltc2990ExternalTemp => (value * 16.0).round() as i32,
        Channel::Ltc2990V1 => (value / 0.00061).round() as i32,
        Channel::Ltc2990V2 => (value / 0.00122).round() as i32,
        Channel::Ltc2990Vcc => ((value - 2.5) / 0.00030518).round() as i32,
        Channel::Lm75Celsius => (value * 2.0).round() as i32,
    })
}

fn parse(text: &str) -> Result<Scenario, String> {
    let values: Vec<Option<i32>> =
        Scenario::readings(text).iter().map(|(c, s)| reading(*c, s)).collect();
    Scenario::parse(text, &values)
}

#[test]
fn empty_scenario_ticks_without_applying_anything() {
    let mut board = Board::new();
    let mut scenario = Scenario::empty();
    scenario.tick(1_000_000, &mut board);
    assert_eq!(scenario.next, 0);
}

#[test]
fn parse_rejects_malformed_lines_with_a_line_number() {
    let err = parse("100 set ltc2990.tint\n").unwrap_err();
    assert!(err.contains("line 1"), "error should cite the line number: {err}");
}

#[test]
fn parse_rejects_unknown_verbs_and_targets() {
    assert!(parse("0 wobble\n").is_err());
    assert!(parse("0 set nope.field 1.0\n").is_err());
    assert!(parse("0 fault fan nonsense\n").is_err());
}

#[test]
fn comments_and_blank_lines_are_ignored() {
    let scenario = parse("# a comment\n\n   \n0 set ltc2990.tint 10.0\n").unwrap();
    assert_eq!(scenario.events.len(), 1);
}

#[test]
fn events_apply_only_once_the_accumulated_cck_reaches_them() {
    let mut board = Board::new();
    let mut scenario = parse("1000 set ltc2990.tint 45.0\n").unwrap();

    scenario.tick(500, &mut board); // not there yet
    assert_eq!(scenario.next, 0);

    scenario.tick(600, &mut board); // now past 1000
    assert_eq!(scenario.next, 1);
}

#[test]
fn events_apply_in_timeline_order_regardless_of_file_order() {
    let mut board = Board::new();
    let mut scenario = parse(
        "2000 set ltc2990.v1 1.0\n\
         1000 set ltc2990.tint 1.0\n",
    )
    .unwrap();
    assert_eq!(scenario.events[0].at_cck, 1000);
    assert_eq!(scenario.events[1].at_cck, 2000);

    scenario.tick(3000, &mut board);
    assert_eq!(scenario.next, 2, "both events should have fired");
}

#[test]
fn fault_events_reach_the_named_device() {
    let mut board = Board::new(); // pcf8574 enabled by default
    let mut scenario = parse("0 fault pcf8574 unplugged\n").unwrap();
    scenario.tick(1, &mut board);
    assert!(board.bus.is_unplugged(0x20));
    assert!(board.set_device_unplugged("pcf8574", true));
}

#[test]
fn fault_targeting_a_disabled_device_does_not_panic() {
    let mut board =
        Board::with_config(BoardConfig { lm75_enabled: false, ..BoardConfig::default() });
    let mut scenario = parse("0 fault lm75 unplugged\n").unwrap();
    scenario.tick(1, &mut board); // should not panic
    assert_eq!(scenario.next, 1);
}

#[test]
fn every_refusal_names_its_line_and_what_is_wrong() {
    let message = |text: &str| parse(text).unwrap_err();
    assert_eq!(message("soon set ltc2990.tint 1"), "line 1: invalid cck");
    assert_eq!(message("-1 set ltc2990.tint 1"), "line 1: invalid cck");
    assert_eq!(message("18446744073709551616 fault fan ok"), "line 1: invalid cck");
    assert_eq!(message("\n7"), "line 2: missing verb");
    assert_eq!(message("# x\r\n\r\n7 set"), "line 3: 'set' needs a target");
    assert_eq!(message("7 set lm75.celsius"), "line 1: 'set lm75.celsius' needs a value");
    assert_eq!(message("7 set nope.field"), "line 1: 'set nope.field' needs a value");
    assert_eq!(message("7 set nope.field x"), "line 1: unknown set target 'nope.field'");
    assert_eq!(message("7 set ltc2990.vcc x"), "line 1: invalid number 'x'");
    assert_eq!(message("7 fault"), "line 1: 'fault' needs a device");
    assert_eq!(message("7 fault fan"), "line 1: 'fault fan' needs a kind");
    assert_eq!(message("7 fault fan wobbly"), "line 1: unknown fault kind 'wobbly'");
    assert_eq!(message("7 fault lm75 stuck_rotor"), "line 1: unknown fault kind 'stuck_rotor'");
    assert_eq!(message("8 fault whatever spinning"), "line 1: unknown fault kind 'spinning'");
    assert_eq!(message("7 wobble"), "line 1: unknown verb 'wobble'");
    assert_eq!(
        message("0 set lm75.celsius 1\n1 set lm75.celsius y\n2 wobble"),
        "line 2: invalid number 'y'"
    );
    assert_eq!(
        message("0 set lm75.celsius 1\n1 wobble\n2 set lm75.celsius y"),
        "line 2: unknown verb 'wobble'"
    );
}

#[test]
fn every_kind_of_line_makes_its_event() {
    let text = "\u{3000}+1 set ltc2990.tint 45.0 and more\n\
                2 set ltc2990.v1 5.05\n\
                3\u{a0}set ltc2990.v2 12.3\n\
                4 set ltc2990.external_temp -40\n\
                5 set ltc2990.vcc 5.0\n\
                6 set lm75.celsius -10\n\
                7 fault fan stuck_rotor\n\
                8 fault fan spinning\n\
                9 fault lm75 unplugged\n\
                18446744073709551615 fault lm75 ok";
    let scenario = parse(text).unwrap();
    let seen: Vec<(u64, String)> =
        scenario.events.iter().map(|e| (e.at_cck, format!("{:?}", e.event))).collect();
    let expected = [
        (1, "SetLtc2990Tint(720)"),
        (2, "SetLtc2990V1(8279)"),
        (3, "SetLtc2990V2(10082)"),
        (4, "SetLtc2990ExternalTemp(-640)"),
        (5, "SetLtc2990Vcc(8192)"),
        (6, "SetLm75Celsius(-20)"),
        (7, "SetFanStuck(true)"),
        (8, "SetFanStuck(false)"),
        (9, "SetDeviceUnplugged(\"lm75\", true)"),
        (u64::MAX, "SetDeviceUnplugged(\"lm75\", false)"),
    ];
    assert_eq!(seen.len(), expected.len());
    for ((at, event), (want_at, want)) in seen.iter().zip(expected) {
        assert_eq!((*at, event.as_str()), (want_at, want));
    }
}

#[test]
fn readings_list_the_values_as_written_up_to_the_first_wrong_line() {
    let list = Scenario::readings(
        "0 set lm75.celsius 1.5\n0 fault fan ok\n0 set ltc2990.v1 x\nwrong\n0 set lm75.celsius 2\n",
    );
    assert_eq!(
        list,
        [
            (Channel::Lm75Celsius, "1.5".to_string()),
            (Channel::Ltc2990V1, "x".to_string())
        ]
    );
}

#[test]
fn events_of_one_time_keep_the_order_of_their_lines() {
    let scenario = parse(
        "5 set lm75.celsius 1\n\
         3 set lm75.celsius 2\n\
         5 set lm75.celsius 3\n\
         3 set lm75.celsius 4\n",
    )
    .unwrap();
    let values: Vec<i32> = scenario
        .events
        .iter()
        .map(|e| match e.event {
            Event::SetLm75Celsius(x) => x,
            _ => panic!("unexpected event"),
        })
        .collect();
    assert_eq!(values, [4, 8, 2, 6]);
}

fn lm75_of(board: &Board) -> i32 {
    match &board.bus.devices[board.slots.lm75.unwrap()].1 {
        BusDevice::Lm75(dev) => dev.half_degrees,
        _ => panic!("not an LM75"),
    }
}

#[test]
fn two_ticks_do_what_one_as_long_as_both_does() {
    let text = "10 set lm75.celsius 1\n20 set lm75.celsius 2\n20 fault fan stuck_rotor\n";
    let config = || BoardConfig { lm75_enabled: true, ..BoardConfig::default() };
    let (mut one, mut two) = (Board::with_config(config()), Board::with_config(config()));
    let (mut a, mut b) = (parse(text).unwrap(), parse(text).unwrap());
    a.tick(20, &mut one);
    b.tick(10, &mut two);
    assert_eq!(lm75_of(&two), 2);
    b.tick(10, &mut two);
    assert_eq!((a.next, a.elapsed_cck), (b.next, b.elapsed_cck));
    assert_eq!(lm75_of(&one), 4);
    assert_eq!(lm75_of(&two), 4);
}

#[test]
fn an_empty_text_is_a_script_without_events() {
    let scenario = parse("").unwrap();
    assert!(scenario.events.is_empty());
    assert_eq!(Scenario::default().events.len(), 0);
    assert_eq!(parse("\n\n#\n   # 7 wobble\n").unwrap().events.len(), 0);
}
