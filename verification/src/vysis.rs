//! The connectivity of a VeSys design (wires and what their ends connect
//! to), as plain values.

use vstd::prelude::*;
use crate::text::str_eq;
use crate::vysisxml::{XmlConnectionRef, XmlTableGroup};
use crate::vysyslib::first_match;

verus! {

/// A device (or ground device) pin: device name and pin name.
#[derive(Clone, Debug)]
pub struct DevicePin {
    pub device: String,
    pub pin: String,
}

/// What a ring terminal is mated to.
#[derive(Clone, Debug)]
pub enum RingMate {
    Device(DevicePin),
    GroundDevice(DevicePin),
    Other,
}

/// A connector pin, with the connector's part numbers and ring data.
#[derive(Clone, Debug)]
pub struct ConnectorPin {
    pub connector: String,
    pub pin: String,
    pub customer_partno: String,
    pub partno: String,
    pub is_ring: bool,
    pub ring_connection: Option<RingMate>,
}

/// A splice pin, with the splice's library part number if it has one.
#[derive(Clone, Debug)]
pub struct SplicePin {
    pub splice: String,
    pub pin: String,
    pub partno: Option<String>,
}

/// What one end of a wire connects to.
#[derive(Clone, Debug)]
pub enum Connection {
    Connector(ConnectorPin),
    Device(DevicePin),
    GroundDevice(DevicePin),
    Splice(SplicePin),
}

/// A resolved wire end: the connection and its termination, if any.
#[derive(Clone, Debug)]
pub struct WireConnection {
    pub connection: Connection,
    pub termination: Option<String>,
}

/// A wire. `length` is its length as text, in the shortest form that reads
/// back as the same `f32` (as `f32::to_string` writes it: `1.5`, `12`); `connection` lists
/// its connections by pin reference as the document has them, and
/// `connections` the resolved ends in order.
#[derive(Clone, Debug)]
pub struct Wire {
    pub name: String,
    pub short_descr: String,
    pub customer_partno: String,
    pub material: String,
    pub spec: String,
    pub color: String,
    pub partnumber: Option<String>,
    pub length: String,
    pub twisted_with: Option<String>,
    pub harness: String,
    pub connection: Vec<XmlConnectionRef>,
    pub connections: Vec<WireConnection>,
}

/// A pin reference and the connection it resolves to.
#[derive(Clone, Debug)]
pub struct PinConnection {
    pub pinref: String,
    pub connection: Connection,
}

/// The wires of a design and the connections of its pins.
#[derive(Clone, Debug)]
pub struct Connectivity {
    pub wires: Vec<Wire>,
    pub pins: Vec<PinConnection>,
}

/// A harness design: its tables and its connectivity.
#[derive(Clone, Debug)]
pub struct HarnessDesign {
    pub table_groups: Vec<XmlTableGroup>,
    pub connectivity: Connectivity,
}

/// The wires of `ws` that belong to harness `h`, in order.
pub open spec fn wires_of(ws: Seq<Wire>, h: Seq<char>) -> Seq<Wire>
    decreases ws.len(),
{
    if ws.len() == 0 {
        Seq::empty()
    } else if ws.last().harness@ == h {
        wires_of(ws.drop_last(), h).push(ws.last())
    } else {
        wires_of(ws.drop_last(), h)
    }
}

/// The wires a sequence of references points to.
pub open spec fn deref_wires(s: Seq<&Wire>) -> Seq<Wire> {
    s.map_values(|w: &Wire| *w)
}

/// The first wire named `name`.
pub open spec fn wire_named(c: Connectivity, name: Seq<char>) -> Option<Wire> {
    first_match(c.wires@, |w: Wire| w.name@ == name)
}

/// The connection of the first pin with reference `pinref`.
pub open spec fn connection_of(c: Connectivity, pinref: Seq<char>) -> Option<Connection> {
    match first_match(c.pins@, |p: PinConnection| p.pinref@ == pinref) {
        Some(p) => Some(p.connection),
        None => None,
    }
}

impl HarnessDesign {
    /// The table groups of the design.
    pub fn get_table_groups(&self) -> (r: &Vec<XmlTableGroup>)
        ensures
            *r == self.table_groups,
    {
        &self.table_groups
    }

    /// The connectivity of the design.
    pub fn get_connectivity(&self) -> (r: &Connectivity)
        ensures
            *r == self.connectivity,
    {
        &self.connectivity
    }
}

impl Connectivity {
    /// The wires of harness `harness`, in order.
    pub fn get_wires(&self, harness: &str) -> (r: Vec<&Wire>)
        ensures
            deref_wires(r@) == wires_of(self.wires@, harness@),
    {
        let mut r: Vec<&Wire> = Vec::new();
        let mut i: usize = 0;
        while i < self.wires.len()
            invariant
                i <= self.wires@.len(),
                deref_wires(r@) == wires_of(self.wires@.take(i as int), harness@),
            decreases self.wires@.len() - i,
        {
            assert(self.wires@.take(i + 1).drop_last() =~= self.wires@.take(i as int));
            if str_eq(self.wires[i].harness.as_str(), harness) {
                let ghost prev = r@;
                r.push(&self.wires[i]);
                assert(deref_wires(r@) =~= deref_wires(prev).push(self.wires@[i as int]));
            }
            i = i + 1;
        }
        assert(self.wires@.take(self.wires@.len() as int) =~= self.wires@);
        r
    }

    /// The first wire named `name`.
    pub fn get_wire_by_name(&self, name: &str) -> (r: Option<&Wire>)
        ensures
            match r {
                Some(w) => wire_named(*self, name@) == Some(*w),
                None => wire_named(*self, name@) is None,
            },
    {
        let ghost f = |w: Wire| w.name@ == name@;
        let ghost s = self.wires@;
        let mut i: usize = 0;
        assert(s.skip(0) =~= s);
        while i < self.wires.len()
            invariant
                i <= s.len(),
                s == self.wires@,
                f == (|w: Wire| w.name@ == name@),
                first_match(s, f) == first_match(s.skip(i as int), f),
            decreases s.len() - i,
        {
            assert(s.skip(i as int)[0] == s[i as int]);
            if str_eq(self.wires[i].name.as_str(), name) {
                return Some(&self.wires[i]);
            }
            assert(s.skip(i as int).drop_first() =~= s.skip(i + 1));
            i = i + 1;
        }
        None
    }

    /// The connection of the first pin with reference `pinref`.
    pub fn get_connection_by_pinref(&self, pinref: &str) -> (r: Option<&Connection>)
        ensures
            match r {
                Some(c) => connection_of(*self, pinref@) == Some(*c),
                None => connection_of(*self, pinref@) is None,
            },
    {
        let ghost f = |p: PinConnection| p.pinref@ == pinref@;
        let ghost s = self.pins@;
        let mut i: usize = 0;
        assert(s.skip(0) =~= s);
        while i < self.pins.len()
            invariant
                i <= s.len(),
                s == self.pins@,
                f == (|p: PinConnection| p.pinref@ == pinref@),
                first_match(s, f) == first_match(s.skip(i as int), f),
            decreases s.len() - i,
        {
            assert(s.skip(i as int)[0] == s[i as int]);
            if str_eq(self.pins[i].pinref.as_str(), pinref) {
                return Some(&self.pins[i].connection);
            }
            assert(s.skip(i as int).drop_first() =~= s.skip(i + 1));
            i = i + 1;
        }
        None
    }
}

} // verus!
