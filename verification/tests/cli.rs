use std::collections::HashMap;

use p2p_local::messages::PeerAddr;

use p2p_local::cli::{
    command_from_line, figure_out_input, param_map_maker, resolve_connect, three_argument_parse,
    two_argument_parse, ParamMap,
};

fn string_former(elements: Vec<&str>, separator: &str) -> String {
    elements.join(separator)
}

fn as_hash_map<'a>(m: Option<ParamMap<'a>>) -> Option<HashMap<&'a str, &'a str>> {
    m.map(|m| m.pairs().into_iter().collect())
}

#[test]
fn one_parameter_false() {
    let value_to_compare = None;
    let result = figure_out_input(&*string_former(vec!["./peer", "period=5"], " --"));
    assert_eq!(result, value_to_compare);
}

#[test]
fn four_parameter_false() {
    let value_to_compare = None;
    let result = figure_out_input(&*string_former(
        vec!["./peer", "period=5", "port=5050", "connect=\"127.0.0.1:5000\"", "period=5"],
        " --",
    ));
    assert_eq!(result, value_to_compare);
}

#[test]
fn empty_string() {
    let value_to_compare = None;
    let result = figure_out_input(&*string_former(vec![], " --"));
    assert_eq!(result, value_to_compare);
}

#[test]
fn wrong_command() {
    let value_to_compare = None;
    let result = figure_out_input(&*string_former(
        vec!["./pear", "period=5", "port=5050", "connect=\"127.0.0.1:5000\"", "period=5"],
        " --",
    ));
    assert_eq!(result, value_to_compare);
}

#[test]
fn free_args_fun_correct() {
    // The address to join comes back as its text; the caller reads it as a socket address.
    let value_to_compare = Some((5u64, 5050u16, Some(String::from("127.0.0.1:5000"))));
    let result = three_argument_parse(vec!["period=5", "port=5050", "connect=\"127.0.0.1:5000\""]);
    assert_eq!(result, value_to_compare);
}

#[test]
fn free_args_fun_incorrect() {
    let value_to_compare = None;
    let result = three_argument_parse(vec!["period=5", "port:5050", "connect=\"127.0.0.1:5000\""]);
    assert_eq!(result, value_to_compare);
}

#[test]
fn two_args_fun_correct() {
    let value_to_compare = Some((5u64, 5050u16, None));
    let result = two_argument_parse(vec!["period=5", "port=5050"]);
    assert_eq!(result, value_to_compare);
}

#[test]
fn two_args_fun_incorrect() {
    let value_to_compare = None;
    let result = two_argument_parse(vec!["period=5", "port:5050"]);
    assert_eq!(result, value_to_compare);
}

#[test]
fn two_args_fun_missing() {
    let value_to_compare = None;
    let result = two_argument_parse(vec!["period=5"]);
    assert_eq!(result, value_to_compare);
}

#[test]
fn two_args_fun_excessive() {
    let value_to_compare = None;
    let result = two_argument_parse(vec!["period=5", "port:5050", "period=5", "port=5050"]);
    assert_eq!(result, value_to_compare);
}

#[test]
fn correct_map_making_test() {
    let value_to_compare: Option<HashMap<&str, &str>> =
        Some(HashMap::from([("period", "5"), ("port", "5050")]));
    let result = as_hash_map(param_map_maker(vec!["period=5", "port=5050"]));
    assert_eq!(result, value_to_compare);
}

#[test]
fn incorrect_map_making_test() {
    let value_to_compare: Option<HashMap<&str, &str>> = None;
    let result = as_hash_map(param_map_maker(vec!["period:5", "port:5050"]));
    assert_eq!(result, value_to_compare);
}

#[test]
fn empty_map_making_test() {
    let value_to_compare: Option<HashMap<&str, &str>> = Some(HashMap::new());
    let result = as_hash_map(param_map_maker(vec![]));
    assert_eq!(result, value_to_compare);
}

#[test]
fn another_incorrect_map_making_test() {
    let value_to_compare: Option<HashMap<&str, &str>> = None;
    let result = as_hash_map(param_map_maker(vec!["period=5=7", "port=8=5050"]));
    assert_eq!(result, value_to_compare);
}

#[test]
fn zero_value_map_making_test() {
    let value_to_compare: Option<HashMap<&str, &str>> = None;
    let result = as_hash_map(param_map_maker(vec!["period=0", "port=0"]));
    assert_eq!(result, value_to_compare);
}

// The property tests of the command grammar, run through proptest's runner.

#[test]
fn two_params_proptest() {
    let mut runner = proptest::test_runner::TestRunner::default();
    runner
        .run(&(0u64..=u64::MAX, 0u16..=u16::MAX), |(period, port_self)| {
            let text = format!("./peer --period={} --port={}", period, port_self);
            let result = figure_out_input(&*text);
            if period == 0 || port_self == 0 {
                assert!(result.is_none());
            } else {
                assert_eq!(result, Some((period, port_self, None)));
            }
            Ok(())
        })
        .unwrap();
}

#[test]
fn three_params_proptest() {
    let mut runner = proptest::test_runner::TestRunner::default();
    let strategy = (
        0u64..=u64::MAX,
        0u16..=u16::MAX,
        (0u8..=255u8, 0u8..=255u8, 0u8..=255u8, 0u8..=255u8),
        0u16..=u16::MAX,
    );
    runner
        .run(&strategy, |(period, port_self, (a, b, c, d), port_server)| {
            let address = format!("{}.{}.{}.{}:{}", a, b, c, d, port_server);
            let text = format!(
                "./peer --period={} --port={} --connect=\"{}\"",
                period, port_self, address
            );
            let result = figure_out_input(&*text);
            if period == 0 || port_self == 0 {
                assert!(result.is_none());
            } else {
                assert_eq!(result, Some((period, port_self, Some(address))));
            }
            Ok(())
        })
        .unwrap();
}

// Further cases.

#[test]
fn zero_written_otherwise_is_refused() {
    assert_eq!(two_argument_parse(vec!["period=00", "port=1"]), None);
    assert_eq!(two_argument_parse(vec!["period=1", "port=+0"]), None);
    assert_eq!(figure_out_input("./peer --period=00 --port=5050"), None);
    assert_eq!(two_argument_parse(vec!["period=01", "port=1"]), Some((1, 1, None)));
}

#[test]
fn connect_must_be_a_socket_address() {
    let local = PeerAddr::V4 { ip4: 0x7f00_0001, port: 5000 };
    let cmd = three_argument_parse(vec!["period=5", "port=5050", "connect=abc"]).unwrap();
    assert_eq!(cmd, (5, 5050, Some(String::from("abc"))));
    // "abc" is no socket address: reading it gives nothing, and the command is refused.
    assert_eq!(resolve_connect(cmd, None), None);
    let cmd = three_argument_parse(vec!["period=5", "port=5050", "connect=\"127.0.0.1:5000\""]).unwrap();
    assert_eq!(resolve_connect(cmd, Some(local)), Some((5, 5050, Some(local))));
    let cmd = two_argument_parse(vec!["period=5", "port=5050"]).unwrap();
    assert_eq!(resolve_connect(cmd.clone(), None), Some((5, 5050, None)));
    assert_eq!(resolve_connect(cmd, Some(local)), Some((5, 5050, None)));
}

#[test]
fn later_parameter_overrides_earlier() {
    let m = param_map_maker(vec!["period=5", "period=7"]).unwrap();
    assert_eq!(m.get("period"), Some("7"));
    assert_eq!(m.get("port"), None);
    assert_eq!(
        figure_out_input("./peer --period=5 --period=7 --port=9"),
        None,
    );
}

#[test]
fn parameters_in_any_order() {
    assert_eq!(
        figure_out_input("./peer --port=9 --period=3"),
        Some((3, 9, None)),
    );
    assert_eq!(
        figure_out_input("./peer --connect=\"127.0.0.1:8080\" --port=8081 --period=6"),
        Some((6, 8081, Some(String::from("127.0.0.1:8080")))),
    );
}

#[test]
fn numbers_out_of_range_are_refused() {
    assert_eq!(two_argument_parse(vec!["period=5", "port=65536"]), None);
    assert_eq!(two_argument_parse(vec!["period=18446744073709551616", "port=1"]), None);
    assert_eq!(
        two_argument_parse(vec!["period=18446744073709551615", "port=65535"]),
        Some((u64::MAX, u16::MAX, None)),
    );
    assert_eq!(two_argument_parse(vec!["period=+5", "port=-1"]), None);
    assert_eq!(two_argument_parse(vec!["period=+5", "port=1"]), Some((5, 1, None)));
}

#[test]
fn missing_connect_is_refused() {
    assert_eq!(three_argument_parse(vec!["period=5", "port=5050", "peer=1"]), None);
}

#[test]
fn line_with_white_space_around() {
    assert_eq!(
        command_from_line("  ./peer --period=5 --port=5050 \t\n"),
        Some((5, 5050, None)),
    );
    assert_eq!(command_from_line("\n"), None);
    assert_eq!(command_from_line("./peer --period=5 --port=5050 x"), None);
}

#[test]
fn lines_typed_until_a_command_is_read() {
    assert_eq!(command_from_line("./pear --period=5 --port=8080\n"), None);
    assert_eq!(
        command_from_line("  ./peer --period=6 --port=8081 --connect=\"127.0.0.1:8080\"\n"),
        Some((6, 8081, Some(String::from("127.0.0.1:8080")))),
    );
}

#[test]
fn pairs_come_in_the_order_given() {
    let m = param_map_maker(vec!["port=1", "period=5", "port=2"]).unwrap();
    assert_eq!(m.pairs(), vec![("port", "1"), ("period", "5"), ("port", "2")]);
    assert_eq!(m.get("port"), Some("2"));
}
