use vnts::listen::{
    after_step, create_tcp, create_udp, io_convert, listen_address, socket_steps, step_context,
    IoError, IoFailure, SocketKind, SocketStep,
};
use vnts::log_setup::{config_path, log_directory, log_plan, logger_config, LogPlan};

#[test]
fn addresses_to_listen_on() {
    assert_eq!(listen_address(&None, 29872), "[::]:29872");
    assert_eq!(
        listen_address(&Some("127.0.0.1".to_string()), 80),
        "127.0.0.1:80"
    );
    assert_eq!(listen_address(&Some("[::1]".to_string()), 0), "[::1]:0");
    assert_eq!(listen_address(&Some("".to_string()), 1), ":1");
}

#[test]
fn ipv6_hosts_get_brackets() {
    for host in ["::1", "::", "fe80::1", "2001:db8::7", "::ffff:10.0.0.1"] {
        let bare = listen_address(&Some(host.to_string()), 29872);
        assert_eq!(bare, format!("[{}]:29872", host));
        assert_eq!(bare, listen_address(&Some(format!("[{}]", host)), 29872));
    }
}

#[test]
fn steps_of_a_tcp_listener() {
    assert_eq!(
        create_tcp(true),
        vec![
            SocketStep::New {
                ipv4: true,
                kind: SocketKind::Stream
            },
            SocketStep::ReuseAddress,
            SocketStep::NonBlocking,
            SocketStep::Bind,
            SocketStep::Listen { backlog: 1024 },
        ]
    );
    assert_eq!(create_tcp(false), socket_steps(false, SocketKind::Stream));
}

#[test]
fn steps_of_a_udp_socket() {
    assert_eq!(
        create_udp(false),
        vec![
            SocketStep::New {
                ipv4: false,
                kind: SocketKind::Datagram
            },
            SocketStep::AcceptBoth,
            SocketStep::ReuseAddress,
            SocketStep::NonBlocking,
            SocketStep::Bind,
        ]
    );
    assert_eq!(create_udp(true).len(), 4);
}

#[test]
fn contexts_of_failed_steps() {
    let new = |kind| SocketStep::New { ipv4: true, kind };
    assert_eq!(step_context(new(SocketKind::Stream), "A", "E"), "new STREAM E");
    assert_eq!(step_context(new(SocketKind::Datagram), "A", "E"), "new DGRAM E");
    assert_eq!(step_context(SocketStep::AcceptBoth, "A", "E"), "set_only_v6 E");
    assert_eq!(
        step_context(SocketStep::ReuseAddress, "A", "E"),
        "set_reuse_address E"
    );
    assert_eq!(
        step_context(SocketStep::NonBlocking, "A", "E"),
        "set_nonblocking E"
    );
    assert_eq!(step_context(SocketStep::Bind, "A", "E"), "bind A,E");
    assert_eq!(
        step_context(SocketStep::Listen { backlog: 1 }, "A", "E"),
        "listen A,E"
    );
}

#[test]
fn converted_errors() {
    let ok: Result<u8, IoError<u8>> = io_convert(Ok(7u8), |_: &IoFailure<u8>| "x".to_string());
    assert_eq!(ok.ok(), Some(7));
    let failure = IoFailure {
        kind: std::io::ErrorKind::AddrInUse,
        debug: "Os".to_string(),
    };
    let err = io_convert(Err::<u8, _>(failure), |e: &IoFailure<std::io::ErrorKind>| {
        format!("bind {}", e.debug)
    });
    let err = err.err().unwrap();
    assert_eq!(err.kind, std::io::ErrorKind::AddrInUse);
    assert_eq!(err.message, "bind Os,internal error:Os");
}

#[test]
fn directories_of_the_log() {
    assert_eq!(log_directory("/opt/vnts", None), Some("/opt/vnts".to_string()));
    assert_eq!(log_directory("/opt/vnts", Some("/dev/null".to_string())), None);
    assert_eq!(
        log_directory("/opt/vnts", Some("/var/log".to_string())),
        Some("/var/log".to_string())
    );
    assert_eq!(log_directory("/opt/vnts", Some("".to_string())), Some("".to_string()));
}

#[test]
fn configuration_of_the_logger() {
    let log_path = "/x/log";
    let expected = format!(
        "refresh_rate: 30 seconds
appenders:
  rolling_file:
    kind: rolling_file
    path: {}/iotnet.log
    append: true
    encoder:
      pattern: \"{{d}} [{{f}}:{{L}}] {{h({{l}})}} {{M}}:{{m}}{{n}}\"
    policy:
      kind: compound
      trigger:
        kind: size
        limit: 10 mb
      roller:
        kind: fixed_window
        pattern: {}/iotnet.{{}}.log
        base: 1
        count: 5

root:
  level: info
  appenders:
    - rolling_file",
        log_path, log_path
    );
    assert_eq!(logger_config(log_path), expected);
}

/// Takes the steps of a setup; the step `fails` fails with the given kind. Gives the steps taken
/// and the end.
fn set_up(
    steps: &Vec<SocketStep>,
    fails: Option<SocketStep>,
    kind: std::io::ErrorKind,
) -> (Vec<SocketStep>, Result<(), IoError<std::io::ErrorKind>>) {
    let mut taken = Vec::new();
    let mut next = Some(steps[0]);
    while let Some(step) = next {
        taken.push(step);
        let outcome = if fails == Some(step) {
            Err(IoFailure {
                kind,
                debug: format!("Kind({:?})", kind),
            })
        } else {
            Ok(())
        };
        match after_step(steps, taken.len() - 1, "[::]:29872", outcome) {
            Ok(n) => next = n,
            Err(e) => return (taken, Err(e)),
        }
    }
    (taken, Ok(()))
}

#[test]
fn setup_without_failures_takes_all_steps() {
    for steps in [create_tcp(true), create_tcp(false), create_udp(true), create_udp(false)] {
        let (taken, end) = set_up(&steps, None, std::io::ErrorKind::Other);
        assert_eq!(taken, steps);
        assert!(end.is_ok());
    }
}

#[test]
fn failed_bind_ends_the_setup() {
    let steps = create_tcp(false);
    let kind = std::io::ErrorKind::AddrInUse;
    let (taken, end) = set_up(&steps, Some(SocketStep::Bind), kind);
    assert_eq!(taken.last(), Some(&SocketStep::Bind));
    assert_eq!(taken.len(), steps.len() - 1);
    let e = end.err().unwrap();
    assert_eq!(e.kind, kind);
    assert_eq!(
        e.message,
        "bind [::]:29872,Kind(AddrInUse),internal error:Kind(AddrInUse)"
    );
}

#[test]
fn failed_creation_ends_the_setup() {
    let steps = create_udp(true);
    let kind = std::io::ErrorKind::PermissionDenied;
    let (taken, end) = set_up(&steps, Some(steps[0]), kind);
    assert_eq!(taken.len(), 1);
    let e = end.err().unwrap();
    assert_eq!(e.kind, kind);
    assert_eq!(
        e.message,
        "new DGRAM Kind(PermissionDenied),internal error:Kind(PermissionDenied)"
    );
}

#[test]
fn every_failure_ends_the_setup() {
    let steps = create_tcp(false);
    for i in 0..steps.len() {
        let (taken, end) = set_up(&steps, Some(steps[i]), std::io::ErrorKind::Other);
        assert_eq!(taken, steps[..=i].to_vec());
        assert!(end.is_err());
    }
}

#[test]
fn existing_log_files_are_left_alone() {
    let text = logger_config("/x/log");
    let path = "/x/log/log4rs.yaml".to_string();
    for dir_exists in [false, true] {
        for config_exists in [false, true] {
            assert_eq!(
                log_plan("/x/log", dir_exists, config_exists),
                LogPlan {
                    create_dir: !dir_exists,
                    write_config: if config_exists { None } else { Some(text.clone()) },
                    config_path: path.clone(),
                }
            );
        }
    }
}

#[test]
fn paths_of_the_logger_configuration() {
    for dir in ["/opt/vnts", "/opt/vnts/", "log", "", ".", "/"] {
        let expected = std::path::Path::new(dir).join("log4rs.yaml");
        assert_eq!(config_path(dir), expected.to_str().unwrap());
    }
}
