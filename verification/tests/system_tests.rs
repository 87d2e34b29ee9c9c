use sysinfo::ProcessStatus;
use taskmon::system::{
    network_status_text, search_names, truncate_name, NetworkInfo, NetworkSample, ProcessInfo, ProcessInfoItem, SystemInfo,
};

fn item(name: &str, pid: u32, mem_mib: f64) -> ProcessInfoItem {
    ProcessInfoItem {
        name: String::from(name),
        pid,
        cpu_bits: 1.5f32.to_bits(),
        mem_bits: mem_mib.to_bits(),
        status: ProcessStatus::Run,
    }
}

fn info_with(rows: Vec<ProcessInfoItem>) -> SystemInfo {
    let mut info = SystemInfo::new(&vec![String::from("eth0")]);
    info.proc_info.procs = rows;
    info
}

fn names(info: &SystemInfo) -> Vec<String> {
    info.proc_info.procs.iter().map(|p| p.name.clone()).collect()
}

#[test]
fn uninit_is_empty() {
    assert!(ProcessInfo::uninit().procs.is_empty());
}

#[test]
fn system_info_new_starts_empty() {
    let info = SystemInfo::new(&vec![]);
    assert!(info.proc_info.procs.is_empty());
    assert_eq!(info.selected_pid, 0);
    assert_eq!(info.network_info.network_name, "unkown");
    assert_eq!(info.network_info.prev_rx, 0);
    assert_eq!(info.network_info.prev_tx, 0);
}

#[test]
fn network_info_takes_first_interface() {
    let n = NetworkInfo::new(&vec![String::from("wlan0"), String::from("lo")]);
    assert_eq!(n.network_name, "wlan0");
    let n = NetworkInfo::new(&vec![]);
    assert_eq!(n.network_name, "unkown");
}

fn sample(name: &str, rx: u64, tx: u64) -> NetworkSample {
    NetworkSample { name: String::from(name), total_received: rx, total_transmitted: tx }
}

#[test]
fn network_speed_by_name_then_unchanged() {
    let mut n = NetworkInfo::new(&vec![String::from("eth0")]);
    let nets = vec![sample("lo", 5, 5), sample("eth0", 1000, 400)];
    assert_eq!(n.get_network_speed("eth0", &nets), Some((1000, 400)));
    assert_eq!((n.prev_rx, n.prev_tx), (1000, 400));
    let nets = vec![sample("lo", 5, 5), sample("eth0", 1500, 450)];
    assert_eq!(n.get_network_speed("eth0", &nets), Some((500, 50)));
    assert_eq!(n.get_network_speed("eth0", &nets), Some((0, 0)));
}

#[test]
fn network_speed_falls_back_to_first_and_saturates() {
    let mut n = NetworkInfo::new(&vec![]);
    n.prev_rx = 100;
    n.prev_tx = 10;
    let nets = vec![sample("lo", 50, 30), sample("eth1", 7, 7)];
    assert_eq!(n.get_network_speed("wlan9", &nets), Some((0, 20)));
    assert_eq!((n.prev_rx, n.prev_tx), (50, 30));
    assert_eq!(n.get_network_speed("wlan9", &vec![]), None);
    assert_eq!((n.prev_rx, n.prev_tx), (50, 30));
}

#[test]
fn find_by_name_case_sensitive_and_not() {
    let info = info_with(vec![
        item("firefox", 10, 3.0),
        item("FireFox-bin", 11, 2.0),
        item("bash", 12, 1.0),
        item("Xfire", 13, 1.0),
    ]);
    assert_eq!(info.find_processes_by_name("fire", true), vec![0, 3]);
    assert_eq!(info.find_processes_by_name("FIREFOX", false), vec![0, 1]);
    assert_eq!(info.find_processes_by_name("FIREFOX", true), Vec::<usize>::new());
    assert_eq!(info.find_processes_by_name("", true), vec![0, 1, 2, 3]);
    assert_eq!(info.find_processes_by_name("zsh", false), Vec::<usize>::new());
}

#[test]
fn find_index_by_pid_takes_first() {
    let info = info_with(vec![item("a", 5, 1.0), item("b", 7, 1.0), item("c", 7, 1.0)]);
    assert_eq!(info.find_process_index_by_pid(7), Some(1));
    assert_eq!(info.find_process_index_by_pid(5), Some(0));
    assert_eq!(info.find_process_index_by_pid(9), None);
}

#[test]
fn process_name_by_index() {
    let info = info_with(vec![item("init", 1, 1.0), item("sshd", 2, 1.0)]);
    assert_eq!(info.get_process_name(1), Some("sshd"));
    assert_eq!(info.get_process_name(2), None);
}

#[test]
fn matching_processes_ignores_case() {
    let info = info_with(vec![item("Postgres", 1, 1.0)]);
    assert!(info.has_matching_processes("postgres"));
    assert!(info.has_matching_processes("GRES"));
    assert!(!info.has_matching_processes("mysql"));
    let empty = info_with(vec![]);
    assert!(!empty.has_matching_processes(""));
}

#[test]
fn truncate_keeps_first_35_bytes() {
    let long = "a".repeat(40);
    assert_eq!(truncate_name(&long), "a".repeat(35));
    assert_eq!(truncate_name("short"), "short");
    let exact = "b".repeat(35);
    assert_eq!(truncate_name(&exact), exact);
    let wide = format!("{}é{}", "x".repeat(33), "yyyy");
    assert_eq!(truncate_name(&wide), format!("{}é", "x".repeat(33)));
}

#[test]
fn refresh_sorts_by_memory_stably_and_cuts_names() {
    let mut info = info_with(vec![]);
    info.selected_pid = 42;
    let long = "n".repeat(50);
    info.refresh(vec![
        item("small", 1, 1.0),
        item("big", 2, 900.5),
        item(&long, 3, 20.0),
        item("tie-first", 4, 20.0),
        item("zero", 5, 0.0),
    ]);
    assert_eq!(
        names(&info),
        vec![
            String::from("big"),
            "n".repeat(35),
            String::from("tie-first"),
            String::from("small"),
            String::from("zero"),
        ]
    );
    let pids: Vec<u32> = info.proc_info.procs.iter().map(|p| p.pid).collect();
    assert_eq!(pids, vec![2, 3, 4, 1, 5]);
    assert_eq!(f64::from_bits(info.proc_info.procs[0].mem_bits), 900.5);
    assert_eq!(info.proc_info.procs[0].status, ProcessStatus::Run);
    assert_eq!(info.selected_pid, 42);
}

#[test]
fn network_status_text_layout() {
    assert_eq!(network_status_text("eth0", 1500, 0), "eth0\nr:1500bs t: 0bs");
    assert_eq!(
        network_status_text("wlan0", u64::MAX, 7),
        format!("wlan0\nr:{}bs t: 7bs", u64::MAX)
    );
}

#[test]
fn search_names_on_folded_keys() {
    let keys = vec![
        String::from("firefox"),
        String::from("bash"),
        String::from("firefox-bin"),
    ];
    assert_eq!(search_names(&keys, "fire"), vec![0, 2]);
    assert_eq!(search_names(&keys, "FIRE"), Vec::<usize>::new());
    assert_eq!(search_names(&keys, ""), vec![0, 1, 2]);
    assert_eq!(search_names(&vec![], "a"), Vec::<usize>::new());
}
