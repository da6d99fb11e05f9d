use otterwatch_mqtt::cluster::protocol::{
    copy_assignments, frame_body, frame_length, unframe, ClusterMessage, GroupAssignment,
    NodeSnapshot,
};

#[test]
fn frame_prefixes_big_endian_length() {
    let f = frame_body(b"abc");
    assert_eq!(f, vec![0, 0, 0, 3, b'a', b'b', b'c']);
    assert_eq!(frame_body(b""), vec![0, 0, 0, 0]);
    let big = vec![7u8; 0x0102];
    let f = frame_body(&big);
    assert_eq!(&f[..4], &[0, 0, 1, 2]);
    assert_eq!(f.len(), 4 + 0x0102);
}

#[test]
fn frame_length_reads_header() {
    assert_eq!(frame_length([0, 0, 0, 5]), 5);
    assert_eq!(frame_length([1, 2, 3, 4]), 0x01020304);
    assert_eq!(frame_length([0xff, 0xff, 0xff, 0xff]), u32::MAX);
}

#[test]
fn unframe_gives_back_body() {
    let body = br#"{"Heartbeat":{"node_name":"node-1"}}"#.to_vec();
    let f = frame_body(&body);
    assert_eq!(unframe(&f), Some(body));
    assert_eq!(unframe(&frame_body(b"")), Some(vec![]));
}

#[test]
fn unframe_refuses_bad_frames() {
    assert_eq!(unframe(&[0, 0, 0]), None);
    assert_eq!(unframe(&[0, 0, 0, 2, 1]), None);
    assert_eq!(unframe(&[0, 0, 0, 1, 1, 2]), None);
}

#[test]
fn duplicates_keep_contents() {
    let m = ClusterMessage::Heartbeat {
        node_name: "node-1".to_string(),
        mqtt_addr: "192.168.1.1:1883".to_string(),
        assigned_groups: vec!["web-servers".to_string()],
        connection_count: 100,
    };
    match m.duplicate() {
        ClusterMessage::Heartbeat { node_name, mqtt_addr, assigned_groups, connection_count } => {
            assert_eq!(node_name, "node-1");
            assert_eq!(mqtt_addr, "192.168.1.1:1883");
            assert_eq!(assigned_groups, vec!["web-servers".to_string()]);
            assert_eq!(connection_count, 100);
        }
        _ => panic!("Wrong message type"),
    }
    let s = NodeSnapshot {
        name: "n".to_string(),
        mqtt_addr: "m".to_string(),
        cluster_addr: "c".to_string(),
        assigned_groups: vec!["g".to_string()],
    };
    let d = s.duplicate();
    assert_eq!(d.name, "n");
    assert_eq!(d.assigned_groups, vec!["g".to_string()]);
    let v = vec![GroupAssignment { group: "g".to_string(), node_name: "n".to_string() }];
    let c = copy_assignments(&v);
    assert_eq!(c.len(), 1);
    assert_eq!(c[0].group, "g");
    assert_eq!(c[0].node_name, "n");
}
