use filesend::discovery::TargetPeer;
use filesend::peers::{same_peer, PeerList};
use filesend::ui::{peer_label, port_text, rate_text, rate_text_of, UiCommand, UiEffect, UiState};

fn peer(host: &str, ip: &str, port: u16) -> TargetPeer {
    TargetPeer { hostname: host.to_string(), ip: ip.to_string(), port }
}

#[test]
fn peers_are_equal_by_address() {
    assert!(same_peer(&peer("a", "10.0.0.1", 1), &peer("b", "10.0.0.1", 2)));
    assert!(!same_peer(&peer("a", "10.0.0.1", 1), &peer("a", "10.0.0.2", 1)));
}

#[test]
fn peer_list_replaces_same_address() {
    let mut list = PeerList::new();
    assert!(list.insert(peer("a", "10.0.0.1", 1)).is_none());
    assert!(list.insert(peer("b", "10.0.0.2", 2)).is_none());
    let old = list.insert(peer("c", "10.0.0.1", 3)).unwrap();
    assert_eq!(old.hostname, "a");
    let mut all = list.to_vec();
    all.sort_by(|x, y| x.ip.cmp(&y.ip));
    assert_eq!(all.len(), 2);
    assert_eq!(all[0].hostname, "c");
    assert_eq!(all[0].port, 3);
    assert_eq!(all[1].hostname, "b");
}

#[test]
fn peer_list_removes_by_address() {
    let mut list = PeerList::new();
    list.insert(peer("a", "10.0.0.1", 1));
    list.insert(peer("b", "10.0.0.2", 2));
    let gone = list.remove(&peer("other name", "10.0.0.1", 9)).unwrap();
    assert_eq!(gone.hostname, "a");
    assert!(list.remove(&peer("a", "10.0.0.1", 1)).is_none());
    let all = list.to_vec();
    assert_eq!(all.len(), 1);
    assert_eq!(all[0].ip, "10.0.0.2");
}

#[test]
fn labels_and_ports() {
    assert_eq!(peer_label(&peer("mybox", "10.0.0.1", 7000)), "mybox\n10.0.0.1:7000");
    assert_eq!(port_text(0), "0");
    assert_eq!(port_text(9), "9");
    assert_eq!(port_text(10), "10");
    assert_eq!(port_text(65535), "65535");
}

#[test]
fn rates() {
    assert_eq!(rate_text(0), "");
    assert_eq!(rate_text(500), "500 B/s");
    assert_eq!(rate_text(1000), "1000 B/s");
    assert_eq!(rate_text(2048), "2 KiB/s");
    assert_eq!(rate_text(1536), "1.5 KiB/s");
}

#[test]
fn commands_change_their_field() {
    let mut ui = UiState::new("/home/u/Downloads/filesend".to_string());
    assert_eq!(ui.apply_command(UiCommand::AcceptOpenFileToSend("/tmp/a.txt".to_string())), UiEffect::Nothing);
    assert_eq!(ui.file_name, "/tmp/a.txt");
    assert_eq!(
        ui.apply_command(UiCommand::AcceptOpenDownloadDir("/tmp/in".to_string())),
        UiEffect::DownloadDirChanged
    );
    assert_eq!(ui.download_dir, "/tmp/in");
    ui.apply_command(UiCommand::SetCurrentPeer(peer("box", "10.1.2.3", 4242)));
    assert_eq!(ui.target_host, "10.1.2.3");
    assert_eq!(ui.target_port, "4242");
    ui.apply_command(UiCommand::SendDtr(2048));
    assert_eq!(ui.send_dtr, "2 KiB/s");
    ui.apply_command(UiCommand::RcvdDtr(0));
    assert_eq!(ui.rcv_dtr, "");
    ui.apply_command(UiCommand::TransmittingFileName("a.txt".to_string()));
    assert_eq!(ui.incoming_file_name, "a.txt");
    ui.apply_command(UiCommand::TargetPeerAdd(peer("x", "10.0.0.7", 1)));
    ui.apply_command(UiCommand::TargetPeerAdd(peer("y", "10.0.0.8", 1)));
    ui.apply_command(UiCommand::TargetPeerRemove(peer("x", "10.0.0.7", 1)));
    let all = ui.target_list.to_vec();
    assert_eq!(all.len(), 1);
    assert_eq!(all[0].hostname, "y");
    assert_eq!(ui.file_name, "/tmp/a.txt");
}

#[test]
fn rate_text_appends_per_second() {
    assert_eq!(rate_text_of(0, "0 B".to_string()), "");
    assert_eq!(rate_text_of(7, "7 B".to_string()), "7 B/s");
    assert_eq!(rate_text_of(1536, "1.5 KiB".to_string()), "1.5 KiB/s");
}

#[test]
fn rate_units() {
    assert!(rate_text(1).ends_with(" B/s"));
    assert!(rate_text(1023).ends_with(" B/s"));
    assert_eq!(rate_text(1100), "1.1 KiB/s");
    assert_eq!(rate_text(3 * 1024 * 1024), "3 MiB/s");
    assert!(rate_text(u32::MAX).ends_with(" GiB/s"));
}

#[test]
fn peer_list_size() {
    let mut list = PeerList::new();
    assert_eq!(list.len(), 0);
    list.insert(peer("a", "10.0.0.1", 1));
    assert_eq!(list.len(), 1);
    list.insert(peer("a2", "10.0.0.1", 2));
    assert_eq!(list.len(), 1);
    list.insert(peer("b", "10.0.0.2", 1));
    assert_eq!(list.len(), 2);
    list.remove(&peer("x", "10.0.0.9", 1));
    assert_eq!(list.len(), 2);
    list.remove(&peer("x", "10.0.0.1", 1));
    assert_eq!(list.len(), 1);
}

#[test]
fn adding_a_known_peer_keeps_the_size() {
    let mut ui = UiState::new(String::new());
    ui.apply_command(UiCommand::TargetPeerAdd(peer("x", "10.0.0.7", 1)));
    ui.apply_command(UiCommand::TargetPeerAdd(peer("x-renamed", "10.0.0.7", 2)));
    assert_eq!(ui.target_list.len(), 1);
    assert_eq!(ui.target_list.to_vec()[0].hostname, "x-renamed");
    ui.apply_command(UiCommand::TargetPeerAdd(peer("y", "10.0.0.8", 1)));
    assert_eq!(ui.target_list.len(), 2);
}
