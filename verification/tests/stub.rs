use ffmpeg_caster::elevate::{spawn_elevated, ElevatedArg};
use ffmpeg_caster::stub::{
    command_line, command_line_wide, quote_arg, relay_plan, relay_step, RelayAction, RelayEvent,
    RELAY_RETRY_MILLIS,
};

#[test]
fn arguments_are_quoted() {
    assert_eq!(quote_arg("plain"), "plain");
    assert_eq!(quote_arg("C:\\dir\\"), "C:\\dir\\");
    assert_eq!(quote_arg(""), "\"\"");
    assert_eq!(quote_arg("two words"), "\"two words\"");
    assert_eq!(quote_arg("a\tb"), "\"a\tb\"");
    assert_eq!(quote_arg("say \"hi\""), "\"say \\\"hi\\\"\"");
    assert_eq!(quote_arg("a\\\"b"), "\"a\\\\\\\"b\"");
    assert_eq!(quote_arg("end \\\\"), "\"end \\\\\\\\\"");
    assert_eq!(quote_arg("mid\\dle \\x"), "\"mid\\dle \\x\"");
}

/// Takes a command line apart as the C runtime does.
fn split(line: &str) -> Vec<String> {
    let chars: Vec<char> = line.chars().collect();
    let mut i = 0;
    let mut program = String::new();
    let mut quoted = false;
    while i < chars.len() && (quoted || (chars[i] != ' ' && chars[i] != '\t')) {
        if chars[i] == '"' {
            quoted = !quoted;
        } else {
            program.push(chars[i]);
        }
        i += 1;
    }
    let mut args = vec![program];
    loop {
        while i < chars.len() && (chars[i] == ' ' || chars[i] == '\t') {
            i += 1;
        }
        if i >= chars.len() {
            return args;
        }
        let mut arg = String::new();
        let mut quoted = false;
        while i < chars.len() && (quoted || (chars[i] != ' ' && chars[i] != '\t')) {
            let mut slashes = 0;
            while i < chars.len() && chars[i] == '\\' {
                slashes += 1;
                i += 1;
            }
            if i < chars.len() && chars[i] == '"' {
                arg.push_str(&"\\".repeat(slashes / 2));
                if slashes % 2 == 1 {
                    arg.push('"');
                } else {
                    quoted = !quoted;
                }
                i += 1;
            } else {
                arg.push_str(&"\\".repeat(slashes));
                if i < chars.len() && (quoted || (chars[i] != ' ' && chars[i] != '\t')) {
                    arg.push(chars[i]);
                    i += 1;
                }
            }
        }
        args.push(arg);
    }
}

#[test]
fn command_lines_read_back() {
    let samples = [
        vec!["-i", "a b", "", "c\"d", "\\", "\\\\ \\", "\"", "\\\"", "x\\\\\"y z\\", "\t"],
        vec![],
        vec!["\\\\.\\pipe\\x", "ddagrab=output_idx=0:framerate=75[vout]"],
    ];
    for sample in samples {
        let args: Vec<String> = sample.iter().map(|s| s.to_string()).collect();
        for program in ["ffmpeg.exe", "C:\\Program Files\\ff\\ffmpeg.exe", "C:\\t\\"] {
            let mut expected = vec![program.to_string()];
            expected.extend(args.iter().cloned());
            assert_eq!(split(&command_line(program, &args)), expected);
        }
    }
    assert_eq!(
        command_line("C:\\a b\\ffmpeg.exe", &vec!["-i".to_string(), "".to_string()]),
        "\"C:\\a b\\ffmpeg.exe\" -i \"\""
    );
}

#[test]
fn command_lines_are_wide_and_end_with_zero() {
    let mut expected: Vec<u16> = "ff \"ä 𝄞\"".encode_utf16().collect();
    expected.push(0);
    assert_eq!(command_line_wide("ff", &vec!["ä 𝄞".to_string()]), expected);
}

#[test]
fn requests_are_passed_on_where_told() {
    assert_eq!(
        relay_plan(Some("5000"), Some("pipe")),
        Some((5000, "pipe".to_string()))
    );
    assert_eq!(relay_plan(Some("0"), Some("pipe")), None);
    assert_eq!(relay_plan(Some("70000"), Some("pipe")), None);
    assert_eq!(relay_plan(Some("port"), Some("pipe")), None);
    assert_eq!(relay_plan(Some("5000"), Some("")), None);
    assert_eq!(relay_plan(Some("5000"), None), None);
    assert_eq!(relay_plan(None, Some("pipe")), None);
}

#[test]
fn requests_are_passed_on_step_by_step() {
    assert_eq!(RELAY_RETRY_MILLIS, 200);
    assert_eq!(relay_step(RelayEvent::Connected(true)), RelayAction::Read);
    assert_eq!(relay_step(RelayEvent::Connected(false)), RelayAction::Wait);
    assert_eq!(relay_step(RelayEvent::Waited), RelayAction::Connect);
    assert_eq!(relay_step(RelayEvent::Read(0)), RelayAction::Connect);
    assert_eq!(relay_step(RelayEvent::Read(10)), RelayAction::Forward(10));
    assert_eq!(relay_step(RelayEvent::ReadFailed), RelayAction::Connect);
    assert_eq!(relay_step(RelayEvent::Forwarded), RelayAction::Read);
}

#[test]
fn the_stub_takes_what_it_is_passed() {
    let args = vec!["-a".to_string()];
    for (port, path, taken) in [
        (5000u16, "pipe", Some((5000u16, "pipe".to_string()))),
        (0, "pipe", None),
        (5000, "", None),
    ] {
        let list = spawn_elevated(true, "C:\\f\\ffmpeg.exe", &args, port, path).unwrap();
        assert_eq!(list.len(), 9);
        match (&list[4], &list[5], &list[6], &list[7], &list[8]) {
            (
                ElevatedArg::Stub,
                ElevatedArg::Text(number),
                ElevatedArg::Text(pipe),
                ElevatedArg::Program,
                ElevatedArg::Text(arg),
            ) => {
                assert_eq!(relay_plan(Some(number), Some(pipe)), taken);
                assert_eq!(arg, "-a");
            }
            other => panic!("{other:?}"),
        }
    }
}
