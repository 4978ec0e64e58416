use orb8::aggregator::NetworkFlowEvent;
use orb8::probe_loader::{
    attach_steps, check_kernel_version, check_version_text, discover_interfaces,
    find_docker_bridge, get_default_route_interface, interface_path, poll_step,
    run_preflight_checks, AttachStep, EventBatch, InterfaceProbe, KernelError, PollStep, ProbeSide,
};

fn message(version: &str) -> String {
    match check_version_text(version) {
        Ok(()) => "ok".to_string(),
        Err(e) => e.message(),
    }
}

#[test]
fn kernels_from_5_8_are_supported() {
    for version in ["5.8", "5.8.0-generic\n", "5.15.0-91-generic\n", "6.0", "6.18.44\n", "10.0", "5.8-rc1"]
    {
        assert_eq!(message(version), "ok", "{}", version);
    }
}

#[test]
fn older_kernels_are_refused() {
    for version in ["5.7.19", "4.19.0-26-amd64\n", "3.10", "0.9", "5.0"] {
        assert_eq!(
            message(version),
            format!(
                "Kernel {} is too old. eBPF requires kernel 5.8+ (5.15+ recommended)",
                version.trim()
            )
        );
    }
}

#[test]
fn malformed_versions_are_refused() {
    assert_eq!(message("6\n"), "Could not parse kernel version: 6\n");
    assert_eq!(message(""), "Could not parse kernel version: ");
    assert_eq!(message("six.1"), "Invalid kernel major version");
    assert_eq!(message(".8"), "Invalid kernel major version");
    assert_eq!(message("4294967296.1"), "Invalid kernel major version");
    assert_eq!(message("6.x"), "Invalid kernel minor version");
    assert_eq!(message("6.-1"), "Invalid kernel minor version");
    assert_eq!(message("6."), "Invalid kernel minor version");
}

#[test]
fn kernel_reports_are_read_as_utf8() {
    assert!(check_kernel_version(b"6.1.0\n".to_vec()).is_ok());
    let bytes = vec![0x36, 0x2e, 0x31, 0xff];
    let expected = String::from_utf8(bytes.clone()).unwrap_err().to_string();
    match check_kernel_version(bytes) {
        Err(KernelError::NotUtf8(text)) => {
            assert_eq!(text, expected);
            assert_eq!(KernelError::NotUtf8(text).message(), expected);
        }
        other => panic!("{:?}", other),
    }
    assert!(matches!(check_kernel_version(b"4.4".to_vec()), Err(KernelError::TooOld(_))));
}

#[test]
fn only_the_kernel_forbids_probes() {
    let report = run_preflight_checks(b"5.15.0".to_vec(), false, 1000).unwrap();
    assert!(report.btf_missing);
    assert!(report.unprivileged);
    let report = run_preflight_checks(b"5.15.0".to_vec(), true, 0).unwrap();
    assert!(!report.btf_missing);
    assert!(!report.unprivileged);
    assert!(run_preflight_checks(b"5.7".to_vec(), true, 0).is_err());
}

#[test]
fn the_first_default_route_counts() {
    let table = "Iface\tDestination\tGateway\n\
                 eth1\t0000A8C0\t00000000\n\
                 lo\t00000000\t00000000\n\
                 ens3\t00000000\t0100A8C0\n\
                 eth0\t00000000\t0100A8C0\n";
    assert_eq!(get_default_route_interface(table), Some("ens3".to_string()));
    assert_eq!(get_default_route_interface("eth0 00000000\n"), None);
    assert_eq!(get_default_route_interface("Iface\nshort\n\n"), None);
    assert_eq!(get_default_route_interface(""), None);
    assert_eq!(
        get_default_route_interface("heading\r\n  wlan0   00000000\r\n"),
        Some("wlan0".to_string())
    );
}

#[test]
fn docker_bridges_are_known_by_their_names() {
    let names = |list: &[&str]| -> Vec<String> { list.iter().map(|s| s.to_string()).collect() };
    assert_eq!(
        find_docker_bridge(&names(&["lo", "br0", "br-1", "br-2"])),
        Some("br-1".to_string())
    );
    assert_eq!(find_docker_bridge(&names(&["eth0", "xbr-1", "br"])), None);
    assert_eq!(find_docker_bridge(&names(&["br-"])), Some("br-".to_string()));
}

fn nothing() -> InterfaceProbe {
    InterfaceProbe {
        default_route: None,
        eth0: false,
        cni0: false,
        docker0: false,
        cbr0: false,
        docker_bridge: None,
    }
}

#[test]
fn interfaces_are_chosen_in_order() {
    let all = InterfaceProbe {
        default_route: Some("ens3".to_string()),
        eth0: true,
        cni0: true,
        docker0: true,
        cbr0: true,
        docker_bridge: Some("br-1".to_string()),
    };
    assert_eq!(discover_interfaces(&all), vec!["ens3", "cni0", "br-1"]);
    let fallback = InterfaceProbe { eth0: true, docker0: true, cbr0: true, ..nothing() };
    assert_eq!(discover_interfaces(&fallback), vec!["eth0", "docker0"]);
    let bridge = InterfaceProbe { cbr0: true, ..nothing() };
    assert_eq!(discover_interfaces(&bridge), vec!["cbr0"]);
}

#[test]
fn a_bridge_is_monitored_once() {
    let probe = InterfaceProbe {
        default_route: Some("br-1".to_string()),
        docker_bridge: Some("br-1".to_string()),
        ..nothing()
    };
    assert_eq!(discover_interfaces(&probe), vec!["br-1"]);
}

#[test]
fn loopback_is_monitored_where_nothing_else_is_found() {
    assert_eq!(discover_interfaces(&nothing()), vec!["lo"]);
}

#[test]
fn interfaces_have_paths() {
    assert_eq!(interface_path("eth0"), "/sys/class/net/eth0");
}

fn shown(step: &AttachStep) -> String {
    match step {
        AttachStep::PrepareInterface(name) => format!("prepare {}", name),
        AttachStep::LoadProgram(side) => format!("load {}", side.program_name()),
        AttachStep::AttachProgram(side, name) => {
            format!("attach {} {}", side.program_name(), name)
        }
    }
}

#[test]
fn both_programs_are_attached_everywhere() {
    let steps = attach_steps(&["a".to_string(), "b".to_string()]);
    let all: Vec<String> = steps.iter().map(shown).collect();
    assert_eq!(
        all,
        vec![
            "prepare a",
            "prepare b",
            "load network_probe",
            "attach network_probe a",
            "attach network_probe b",
            "load network_probe_egress",
            "attach network_probe_egress a",
            "attach network_probe_egress b",
        ]
    );
    let fatal: Vec<bool> = steps.iter().map(|step| step.failure_is_fatal()).collect();
    assert_eq!(fatal, vec![false, false, true, false, false, true, false, false]);
}

#[test]
fn programs_are_loaded_though_there_is_no_interface() {
    let all: Vec<String> = attach_steps(&[]).iter().map(shown).collect();
    assert_eq!(all, vec!["load network_probe", "load network_probe_egress"]);
    assert_eq!(ProbeSide::Egress.program_name(), "network_probe_egress");
}

fn packet(dst_port: u16) -> NetworkFlowEvent {
    NetworkFlowEvent {
        src_ip: 1,
        dst_ip: 2,
        src_port: 3,
        dst_port,
        protocol: 6,
        direction: 0,
        packet_len: 100,
        cgroup_id: 0,
        timestamp_ns: 0,
    }
}

/// Polls items that are told by length and port, and gives the ports taken.
fn poll(ring: &mut Vec<(usize, u16)>, max_batch_size: usize) -> Vec<u16> {
    let mut batch = EventBatch::new(max_batch_size);
    while batch.wants_more() && !ring.is_empty() {
        let (len, port) = ring.remove(0);
        match poll_step(len, 32) {
            PollStep::Take => batch.offer(Some(packet(port))),
            PollStep::Skip => batch.offer(None),
        }
    }
    batch.into_events().iter().map(|event| event.dst_port).collect()
}

#[test]
fn a_poll_takes_the_first_packets() {
    let mut ring = vec![(32, 1), (31, 2), (32, 3), (33, 4), (32, 5), (32, 6)];
    assert_eq!(poll(&mut ring, 3), vec![1, 3, 5]);
    assert_eq!(ring, vec![(32, 6)]);
    assert_eq!(poll(&mut ring, 0), vec![]);
    assert_eq!(ring.len(), 1);
    assert_eq!(poll_step(32, 32), PollStep::Take);
    assert_eq!(poll_step(0, 32), PollStep::Skip);
}

#[test]
fn the_next_poll_goes_on_behind_a_full_batch() {
    let mut ring = vec![(32, 1), (32, 2), (32, 3)];
    assert_eq!(poll(&mut ring, 2), vec![1, 2]);
    ring.push((32, 4));
    assert_eq!(poll(&mut ring, 2), vec![3, 4]);
    assert_eq!(poll(&mut ring, 2), vec![]);
}
