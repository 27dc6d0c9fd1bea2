use unvesys::flexible_table::TableData;
use unvesys::vysis::{
    Connection, ConnectorPin, Connectivity, DevicePin, PinConnection, RingMate, SplicePin, Wire,
    WireConnection,
};
use unvesys::vysisxml::{XmlConnectionRef, XmlConnector, XmlPin};
use unvesys::vysyslib::{ColorDescription, CustomerPart, Library, SplicePart, TerminalPart, WireProperty};
use unvesys::wirelist::{
    connector_connections_to_flexible_table, generate_wirelist, sort_wirelist_by_left_device_pin,
    wirelist_to_flexible_table, WireEndEntry, WireEntry, WireList,
};

fn end(device: &str, pin: &str) -> WireEndEntry {
    WireEndEntry {
        device: device.to_string(),
        pin: pin.to_string(),
        termination_partnumber: String::new(),
        termination_name: String::new(),
        strip: "0".to_string(),
    }
}

fn entry(name: &str, left: Option<WireEndEntry>, right: Option<WireEndEntry>) -> WireEntry {
    WireEntry {
        name: name.to_string(),
        descr: format!("{} descr", name),
        partno: "P".to_string(),
        material: "TXL".to_string(),
        spec: "20".to_string(),
        processing: String::new(),
        color_code: String::new(),
        color_description: String::new(),
        length: "12".to_string(),
        left,
        right,
        twisted_with: None,
    }
}

fn names(v: &[WireEntry]) -> Vec<&str> {
    v.iter().map(|w| w.name.as_str()).collect()
}

#[test]
fn swap_exchanges_ends_and_twice_restores() {
    let mut w = entry("W1", Some(end("J1", "1")), Some(end("J2", "2")));
    w.swap();
    assert_eq!(w.left.as_ref().unwrap().device, "J2");
    assert_eq!(w.right.as_ref().unwrap().device, "J1");
    w.swap();
    assert_eq!(w.left.as_ref().unwrap().device, "J1");
    assert_eq!(w.left.as_ref().unwrap().pin, "1");
    assert_eq!(w.right.as_ref().unwrap().device, "J2");
    assert_eq!(w.right.as_ref().unwrap().pin, "2");
}

#[test]
fn swap_with_one_end() {
    let mut w = entry("W1", Some(end("J1", "1")), None);
    w.swap();
    assert!(w.left.is_none());
    assert_eq!(w.right.as_ref().unwrap().device, "J1");
}

#[test]
fn wire_entries_equal_by_name() {
    let a = entry("W1", Some(end("J1", "1")), None);
    let b = entry("W1", None, Some(end("J9", "9")));
    let c = entry("W2", None, None);
    assert!(a == b);
    assert!(a != c);
}

#[test]
fn wire_list_insert_keeps_first_of_each_name() {
    let mut l = WireList::new();
    assert!(l.insert(entry("W1", Some(end("J1", "1")), None)));
    assert!(l.insert(entry("W2", None, None)));
    assert!(!l.insert(entry("W1", Some(end("J7", "7")), None)));
    assert_eq!(names(l.wires()), vec!["W1", "W2"]);
    assert_eq!(l.wires()[0].left.as_ref().unwrap().device, "J1");
}

#[test]
fn wires_between_devices_either_direction() {
    let mut l = WireList::new();
    l.insert(entry("W1", Some(end("J1", "1")), Some(end("J2", "1"))));
    l.insert(entry("W2", Some(end("J2", "2")), Some(end("J1", "2"))));
    l.insert(entry("W3", Some(end("J1", "3")), Some(end("J3", "1"))));
    l.insert(entry("W4", Some(end("J1", "4")), None));
    assert_eq!(names(&l.get_wires_between_devices("J1", "J2")), vec!["W1", "W2"]);
    assert_eq!(names(&l.get_wires_between_devices("J3", "J1")), vec!["W3"]);
    assert!(l.get_wires_between_devices("J1", "J4").is_empty());
}

#[test]
fn wires_between_devices_each_once() {
    let mut l = WireList::new();
    assert!(l.insert(entry("W1", Some(end("J1", "1")), Some(end("J2", "1")))));
    assert!(!l.insert(entry("W1", Some(end("J2", "5")), Some(end("J1", "5")))));
    assert!(l.insert(entry("W2", Some(end("J2", "2")), Some(end("J1", "2")))));
    let between = l.get_wires_between_devices("J2", "J1");
    assert_eq!(names(&between), vec!["W1", "W2"]);
    assert_eq!(between[0].left.as_ref().unwrap().pin, "1");
    assert_eq!(l.wires().len(), 2);
}

#[test]
fn sort_by_left_device_then_pin_number() {
    let mut v = vec![
        entry("A", Some(end("J2", "1")), None),
        entry("B", Some(end("J1", "10")), None),
        entry("C", Some(end("J1", "9")), None),
        entry("D", Some(end("J1", "2")), None),
    ];
    sort_wirelist_by_left_device_pin(&mut v);
    assert_eq!(names(&v), vec!["D", "C", "B", "A"]);
}

#[test]
fn sort_non_numeric_pins_by_name_and_is_stable() {
    let mut v = vec![
        entry("A", Some(end("J1", "B")), None),
        entry("B", Some(end("J1", "A")), None),
        entry("C", Some(end("J1", "A")), None),
    ];
    sort_wirelist_by_left_device_pin(&mut v);
    assert_eq!(names(&v), vec!["B", "C", "A"]);
}

#[test]
fn sort_keeps_wires_without_left_end_in_place() {
    let mut v = vec![entry("A", None, None), entry("B", None, None)];
    sort_wirelist_by_left_device_pin(&mut v);
    assert_eq!(names(&v), vec!["A", "B"]);
    let mut e: Vec<WireEntry> = Vec::new();
    sort_wirelist_by_left_device_pin(&mut e);
    assert!(e.is_empty());
}

fn library() -> Library {
    Library {
        customer_parts: vec![
            CustomerPart { partnumber: "T1".to_string(), customer_partnumber: "C-T1".to_string() },
            CustomerPart { partnumber: "S1".to_string(), customer_partnumber: "C-S1".to_string() },
        ],
        terminals: vec![TerminalPart {
            partnumber: "T1".to_string(),
            short_name: Some("Ferrule".to_string()),
            striplength: "0.25".to_string(),
        }],
        splices: vec![SplicePart {
            partnumber: "S1".to_string(),
            short_name: Some("Butt".to_string()),
            striplength: "0.3".to_string(),
        }],
        wire_properties: vec![WireProperty {
            partnumber: "WP1".to_string(),
            name: "PROCESSING".to_string(),
            value: "STRIP".to_string(),
        }],
        colors: vec![ColorDescription { code: "RD".to_string(), description: "Red".to_string() }],
    }
}

fn wire(name: &str, harness: &str, connections: Vec<WireConnection>) -> Wire {
    Wire {
        name: name.to_string(),
        short_descr: format!("{} d", name),
        customer_partno: "CP".to_string(),
        material: "TXL".to_string(),
        spec: "18".to_string(),
        color: "RD".to_string(),
        partnumber: Some("WP1".to_string()),
        length: "10".to_string(),
        twisted_with: None,
        harness: harness.to_string(),
        connection: Vec::new(),
        connections,
    }
}

fn device(d: &str, p: &str) -> Connection {
    Connection::Device(DevicePin { device: d.to_string(), pin: p.to_string() })
}

fn connector(c: &str, p: &str) -> Connection {
    Connection::Connector(ConnectorPin {
        connector: c.to_string(),
        pin: p.to_string(),
        customer_partno: String::new(),
        partno: String::new(),
        is_ring: false,
        ring_connection: None,
    })
}

fn wc(c: Connection, t: Option<&str>) -> WireConnection {
    WireConnection { connection: c, termination: t.map(|s| s.to_string()) }
}

#[test]
fn generate_wirelist_resolves_ends() {
    let lib = library();
    let ring = Connection::Connector(ConnectorPin {
        connector: "R1".to_string(),
        pin: "1".to_string(),
        customer_partno: "RING-CP".to_string(),
        partno: "T1".to_string(),
        is_ring: true,
        ring_connection: Some(RingMate::GroundDevice(DevicePin {
            device: "GND".to_string(),
            pin: "G".to_string(),
        })),
    });
    let splice = Connection::Splice(SplicePin {
        splice: "SP1".to_string(),
        pin: "A".to_string(),
        partno: Some("S1".to_string()),
    });
    let c = Connectivity {
        wires: vec![
            wire("W1", "H", vec![wc(connector("J1", "1"), Some("T1")), wc(device("D1", "2"), Some(" ^ "))]),
            wire("W2", "H", vec![wc(ring, None), wc(splice, None)]),
            wire("W3", "Other", vec![]),
            wire("W1", "H", vec![]),
            wire("W4", "H", vec![wc(device("D2", "5"), None)]),
        ],
        pins: Vec::new(),
    };
    let l = generate_wirelist(&lib, &c, "H");
    assert_eq!(names(l.wires()), vec!["W1", "W2", "W4"]);
    let w1 = &l.wires()[0];
    assert_eq!(w1.processing, "STRIP");
    assert_eq!(w1.color_description, "Red");
    let left = w1.left.as_ref().unwrap();
    assert_eq!(left.device, "J1");
    assert_eq!(left.termination_partnumber, "C-T1");
    assert_eq!(left.termination_name, "Ferrule");
    assert_eq!(left.strip, "0.25");
    let right = w1.right.as_ref().unwrap();
    assert_eq!(right.device, "D1");
    assert_eq!(right.termination_partnumber, "^");
    assert_eq!(right.termination_name, "");
    let w2 = &l.wires()[1];
    let rl = w2.left.as_ref().unwrap();
    assert_eq!(rl.device, "GND");
    assert_eq!(rl.pin, "G");
    assert_eq!(rl.termination_partnumber, "RING-CP");
    assert_eq!(rl.termination_name, "Ferrule");
    let sr = w2.right.as_ref().unwrap();
    assert_eq!(sr.device, "SP1");
    assert_eq!(sr.termination_partnumber, "C-S1");
    assert_eq!(sr.termination_name, "Butt");
    assert_eq!(sr.strip, "0.3");
    let w4 = &l.wires()[2];
    assert_eq!(w4.left.as_ref().unwrap().termination_partnumber, "TODO");
    assert_eq!(w4.left.as_ref().unwrap().strip, "0");
    assert!(w4.right.is_none());
}

#[test]
fn wirelist_table_sorts_groups_and_marks_boundaries() {
    let mut a = entry("A", Some(end("J2", "1")), Some(end("J3", "4")));
    a.color_code = "RD".to_string();
    a.twisted_with = Some("B".to_string());
    let b = entry("B", Some(end("J1", "1")), None);
    let c = entry("C", Some(end("J5", "1")), None);
    let t = wirelist_to_flexible_table(vec![vec![a, b], vec![c]]);
    assert_eq!(t.column_count(), 22);
    assert_eq!(t.row_count(), 3);
    assert_eq!(t.get_by_name(0, "WIRE_NAME"), Some("B"));
    assert_eq!(t.get_by_name(1, "WIRE_NAME"), Some("A (⤫ B)"));
    assert_eq!(t.get_by_name(1, "TWIST_WIDTH"), Some("B"));
    assert_eq!(t.get_by_name(1, "FROM_LABEL"), Some("J2-1"));
    assert_eq!(t.get_by_name(1, "TO_LABEL"), Some("J3-4"));
    assert_eq!(t.get_by_name(0, "TO_LABEL"), Some("-"));
    assert_eq!(t.get_by_name(0, "WIRE_TERMINAL_STRIP_LEN2"), Some("0"));
    assert_eq!(t.get_by_name(2, "WIRE_NAME"), Some("C"));
    let metas: Vec<bool> = t.rows.iter().map(|r| r.meta.group_boundary_below).collect();
    assert_eq!(metas, vec![false, true, true]);
    assert_eq!(t.rows[1].meta.color_code.as_deref(), Some("RD"));
    assert!(t.rows[0].meta.color_code.is_none());
}

fn pin(id: &str, name: &str) -> XmlPin {
    XmlPin { id: id.to_string(), name: name.to_string() }
}

fn pin_connection(pinref: &str, c: Connection) -> PinConnection {
    PinConnection { pinref: pinref.to_string(), connection: c }
}

fn connector_fixture() -> (Connectivity, XmlConnector) {
    let mut w1 = wire("W1", "H", vec![wc(connector("J1", "2"), None), wc(device("D1", "1"), None)]);
    w1.connection = vec![XmlConnectionRef { pinref: "p2".to_string() }];
    let mut w2 = wire("W2", "H", vec![wc(connector("J1", "2"), None), wc(device("D2", "1"), None)]);
    w2.connection = vec![
        XmlConnectionRef { pinref: "p2".to_string() },
        XmlConnectionRef { pinref: "d2".to_string() },
    ];
    let mut w3 = wire("W3", "H", vec![wc(connector("J1", "9"), None)]);
    w3.connection = vec![XmlConnectionRef { pinref: "p9".to_string() }];
    let mut w4 = wire("W4", "Other", vec![]);
    w4.connection = vec![XmlConnectionRef { pinref: "p1".to_string() }];
    let c = Connectivity {
        wires: vec![w1, w2, w3, w4],
        pins: vec![
            pin_connection("p1", connector("J1", "1")),
            pin_connection("p2", connector("J1", "2")),
            pin_connection("p9", connector("J1", "9")),
            pin_connection("d2", device("D2", "1")),
        ],
    };
    let d = XmlConnector {
        name: "J1".to_string(),
        harness: Some("H".to_string()),
        pin: vec![pin("p2", "B"), pin("p1", "A"), pin("p3", "C")],
    };
    (c, d)
}

#[test]
fn connector_table_lists_pins_sorted_with_wires() {
    let (c, d) = connector_fixture();
    let t = connector_connections_to_flexible_table(&c, &d);
    let ids: Vec<&str> = t.columns.iter().map(|c| c.id.as_str()).collect();
    assert_eq!(ids, vec!["pin", "wire", "description", "from", "to"]);
    let rows: Vec<Vec<String>> = t.rows.iter().map(|r| r.cells.clone()).collect();
    assert_eq!(
        rows,
        vec![
            vec!["A", "", "", "", ""],
            vec!["B", "W1", "W1 d", "J1-2", "D1-1"],
            vec!["B", "W2", "W2 d", "J1-2", "D2-1"],
            vec!["C", "", "", "", ""],
            vec!["p9", "W3", "W3 d", "J1-9", ""],
        ]
    );
}

#[test]
fn connector_table_every_pin_present_and_pin_column_ordered() {
    let (c, d) = connector_fixture();
    let t = connector_connections_to_flexible_table(&c, &d);
    for p in &d.pin {
        assert!(t.rows.iter().any(|r| r.cells[0] == p.name));
    }
    for i in 1..t.rows.len() {
        assert!(t.rows[i - 1].cells[0] <= t.rows[i].cells[0]);
    }
}

#[test]
fn connector_without_harness_uses_wires_without_harness() {
    let (mut c, mut d) = connector_fixture();
    d.harness = None;
    c.wires[0].harness = String::new();
    let t = connector_connections_to_flexible_table(&c, &d);
    let wires: Vec<&str> = t.rows.iter().map(|r| r.cells[1].as_str()).collect();
    assert_eq!(wires, vec!["", "W1", ""]);
}
