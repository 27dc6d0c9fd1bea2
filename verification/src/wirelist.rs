//! Wire list: wire entries built from connectivity and the library, sorting
//! by left device and pin, conversion to a flexible table, and the connector
//! connection table.

use vstd::prelude::*;
use crate::sorting::{
    antisymmetric, insert_pos, isort, lemma_insert_pos, lemma_isort_locally_sorted, lemma_isort_map,
    lemma_isort_permutes, lemma_locally_sorted_sorted, locally_sorted,
};
use crate::flexible_table::default_meta;
use crate::text::{
    flip, lemma_lex_order_equal, lemma_lex_order_flip, lemma_lex_order_trans, lex_order, opt_string_view, or_empty, parse_i32, parse_i32_exec,
    str_eq, str_order, to_string, trim, trims_to_caret, Order,
};
use crate::flexible_table::{
    column_displays, column_ids, meta_view, rows_cells, rows_metas, ColumnSpec, FlexibleRow,
    FlexibleTable, RowMeta,
};
use crate::text::{concat, strings_view};
use crate::wire_list_columns;
use vstd::pervasive::VecAdditionalExecFns;
use crate::vysisxml::{XmlConnectionRef, XmlConnector, XmlPin};
use crate::vysyslib::first_match;
use crate::vysis::{
    connection_of, deref_wires, wires_of, Connection, ConnectorPin, Connectivity, RingMate, SplicePin,
    Wire,
};
use crate::vysyslib::{
    color_description_of, customer_partno_of, splice_of, splice_short_name, terminal_of,
    terminal_short_name, wire_property_of, Library, SplicePart, TerminalPart,
};

verus! {

/// One end of a wire entry. `strip` is the strip length as text, in the form
/// `f32::to_string` writes it (`0` for none).
#[derive(Debug)]
pub struct WireEndEntry {
    pub device: String,
    pub pin: String,
    pub termination_partnumber: String,
    pub termination_name: String,
    pub strip: String,
}

/// The view of a wire end.
pub struct WireEndView {
    pub device: Seq<char>,
    pub pin: Seq<char>,
    pub termination_partnumber: Seq<char>,
    pub termination_name: Seq<char>,
    pub strip: Seq<char>,
}

impl View for WireEndEntry {
    type V = WireEndView;

    open spec fn view(&self) -> WireEndView {
        WireEndView {
            device: self.device@,
            pin: self.pin@,
            termination_partnumber: self.termination_partnumber@,
            termination_name: self.termination_name@,
            strip: self.strip@,
        }
    }
}

/// The view of a wire end nothing was found for: empty texts and a zero
/// strip length.
pub open spec fn default_end_view() -> WireEndView {
    WireEndView {
        device: Seq::empty(),
        pin: Seq::empty(),
        termination_partnumber: Seq::empty(),
        termination_name: Seq::empty(),
        strip: "0"@,
    }
}

impl Default for WireEndEntry {
    fn default() -> (r: Self)
        ensures
            r@ == default_end_view(),
    {
        WireEndEntry {
            device: String::new(),
            pin: String::new(),
            termination_partnumber: String::new(),
            termination_name: String::new(),
            strip: to_string("0"),
        }
    }
}

impl Clone for WireEndEntry {
    fn clone(&self) -> (r: Self)
        ensures
            r == *self,
    {
        WireEndEntry {
            device: self.device.clone(),
            pin: self.pin.clone(),
            termination_partnumber: self.termination_partnumber.clone(),
            termination_name: self.termination_name.clone(),
            strip: self.strip.clone(),
        }
    }
}

fn clone_end(e: &Option<WireEndEntry>) -> (r: Option<WireEndEntry>)
    ensures
        r == *e,
{
    match e {
        Some(x) => Some(x.clone()),
        None => None,
    }
}

fn clone_opt_string(s: &Option<String>) -> (r: Option<String>)
    ensures
        r == *s,
{
    match s {
        Some(x) => Some(x.clone()),
        None => None,
    }
}

/// A wire of the wire list with its two ends. Entries are equal when their
/// names are. `length` is the wire length as text, in the form
/// `f32::to_string` writes it.
#[derive(Debug)]
pub struct WireEntry {
    pub name: String,
    pub descr: String,
    pub partno: String,
    pub material: String,
    pub spec: String,
    pub processing: String,
    pub color_code: String,
    pub color_description: String,
    pub length: String,
    pub left: Option<WireEndEntry>,
    pub right: Option<WireEndEntry>,
    pub twisted_with: Option<String>,
}

/// The view of a wire entry.
pub struct WireEntryView {
    pub name: Seq<char>,
    pub descr: Seq<char>,
    pub partno: Seq<char>,
    pub material: Seq<char>,
    pub spec: Seq<char>,
    pub processing: Seq<char>,
    pub color_code: Seq<char>,
    pub color_description: Seq<char>,
    pub length: Seq<char>,
    pub left: Option<WireEndView>,
    pub right: Option<WireEndView>,
    pub twisted_with: Option<Seq<char>>,
}

/// The view of an optional wire end.
pub open spec fn opt_end_view(e: Option<WireEndEntry>) -> Option<WireEndView> {
    match e {
        Some(x) => Some(x@),
        None => None,
    }
}

impl View for WireEntry {
    type V = WireEntryView;

    open spec fn view(&self) -> WireEntryView {
        WireEntryView {
            name: self.name@,
            descr: self.descr@,
            partno: self.partno@,
            material: self.material@,
            spec: self.spec@,
            processing: self.processing@,
            color_code: self.color_code@,
            color_description: self.color_description@,
            length: self.length@,
            left: opt_end_view(self.left),
            right: opt_end_view(self.right),
            twisted_with: opt_string_view(self.twisted_with),
        }
    }
}

impl Clone for WireEntry {
    fn clone(&self) -> (r: Self)
        ensures
            r == *self,
    {
        WireEntry {
            name: self.name.clone(),
            descr: self.descr.clone(),
            partno: self.partno.clone(),
            material: self.material.clone(),
            spec: self.spec.clone(),
            processing: self.processing.clone(),
            color_code: self.color_code.clone(),
            color_description: self.color_description.clone(),
            length: self.length.clone(),
            left: clone_end(&self.left),
            right: clone_end(&self.right),
            twisted_with: clone_opt_string(&self.twisted_with),
        }
    }
}

impl PartialEq for WireEntry {
    fn eq(&self, other: &Self) -> (r: bool) {
        self.name == other.name
    }
}

impl vstd::std_specs::cmp::PartialEqSpecImpl for WireEntry {
    open spec fn obeys_eq_spec() -> bool {
        true
    }

    open spec fn eq_spec(&self, other: &Self) -> bool {
        self.name@ == other.name@
    }
}

impl Eq for WireEntry {

}

/// `e` with its two ends exchanged.
pub open spec fn swapped(e: WireEntry) -> WireEntry {
    WireEntry { left: e.right, right: e.left, ..e }
}

/// Law: exchanging the ends twice gives the entry back.
pub proof fn lemma_swap_twice(e: WireEntry)
    ensures
        swapped(swapped(e)) == e,
{
}

impl WireEntry {
    /// Exchange the two ends.
    pub fn swap(&mut self)
        ensures
            *final(self) == swapped(*old(self)),
    {
        let left_old = clone_end(&self.left);
        self.left = clone_end(&self.right);
        self.right = left_old;
    }
}

/// Whether no two entries share a name.
pub open spec fn names_distinct(ws: Seq<WireEntry>) -> bool {
    forall|i: int, j: int|
        #![trigger ws[i], ws[j]]
        0 <= i < j < ws.len() ==> ws[i].name@ != ws[j].name@
}

/// Whether some entry is named `name`.
pub open spec fn has_name(ws: Seq<WireEntry>, name: Seq<char>) -> bool {
    exists|i: int| 0 <= i < ws.len() && #[trigger] ws[i].name@ == name
}

/// The wire list: a set of wire entries keyed by name (no two entries share
/// a name), in the order they were added.
pub struct WireList {
    wires: Vec<WireEntry>,
}

/// Whether a wire connects devices `from` and `to`, in either direction.
pub open spec fn connects(w: WireEntry, from: Seq<char>, to: Seq<char>) -> bool {
    match (w.left, w.right) {
        (Some(l), Some(r)) => (l.device@ == from && r.device@ == to) || (r.device@ == from
            && l.device@ == to),
        _ => false,
    }
}

/// The wires of `ws` that connect `from` and `to`, in order.
pub open spec fn wires_between(ws: Seq<WireEntry>, from: Seq<char>, to: Seq<char>) -> Seq<
    WireEntry,
>
    decreases ws.len(),
{
    if ws.len() == 0 {
        Seq::empty()
    } else if connects(ws.last(), from, to) {
        wires_between(ws.drop_last(), from, to).push(ws.last())
    } else {
        wires_between(ws.drop_last(), from, to)
    }
}

/// The wires between two devices are wires of the list, and where the
/// list's names are distinct so are theirs.
proof fn lemma_wires_between(ws: Seq<WireEntry>, from: Seq<char>, to: Seq<char>)
    ensures
        forall|i: int| 0 <= i < wires_between(ws, from, to).len() ==> ws.contains(
            #[trigger] wires_between(ws, from, to)[i],
        ),
        names_distinct(ws) ==> names_distinct(wires_between(ws, from, to)),
    decreases ws.len(),
{
    if ws.len() > 0 {
        let p = ws.drop_last();
        lemma_wires_between(p, from, to);
        let wp = wires_between(p, from, to);
        let wb = wires_between(ws, from, to);
        assert forall|i: int| 0 <= i < wb.len() implies ws.contains(#[trigger] wb[i]) by {
            if i < wp.len() {
                assert(wb[i] == wp[i]);
                let j = choose|j: int| 0 <= j < p.len() && p[j] == wp[i];
                assert(ws[j] == p[j]);
            } else {
                assert(wb[i] == ws.last());
                assert(ws[ws.len() - 1] == ws.last());
            }
        }
        if names_distinct(ws) {
            assert(names_distinct(p)) by {
                assert forall|a: int, b: int| 0 <= a < b < p.len() implies #[trigger] p[a].name@
                    != #[trigger] p[b].name@ by {
                    assert(p[a] == ws[a] && p[b] == ws[b]);
                }
            }
            assert forall|a: int, b: int| 0 <= a < b < wb.len() implies #[trigger] wb[a].name@
                != #[trigger] wb[b].name@ by {
                if b < wp.len() {
                    assert(wb[a] == wp[a] && wb[b] == wp[b]);
                } else {
                    assert(wb[a] == wp[a]);
                    assert(wb[b] == ws.last());
                    let j = choose|j: int| 0 <= j < p.len() && p[j] == wp[a];
                    assert(ws[j] == p[j]);
                    assert(ws[ws.len() - 1] == ws.last());
                }
            }
        }
    }
}

impl WireList {
    /// The entries, in the order they were added.
    pub closed spec fn entries(&self) -> Seq<WireEntry> {
        self.wires@
    }

    #[verifier::type_invariant]
    spec fn inv(&self) -> bool {
        names_distinct(self.wires@)
    }

    /// An empty wire list.
    pub fn new() -> (r: WireList)
        ensures
            r.entries().len() == 0,
    {
        WireList { wires: Vec::new() }
    }

    /// The entries, in the order they were added; no two share a name.
    pub fn wires(&self) -> (r: &Vec<WireEntry>)
        ensures
            r@ == self.entries(),
            names_distinct(r@),
    {
        proof {
            use_type_invariant(self);
        }
        &self.wires
    }

    /// Add `entry` unless an entry of the same name is already there; true
    /// when it was added.
    pub fn insert(&mut self, entry: WireEntry) -> (added: bool)
        ensures
            added == !has_name(old(self).entries(), entry.name@),
            added ==> final(self).entries() == old(self).entries().push(entry),
            !added ==> final(self).entries() == old(self).entries(),
            names_distinct(final(self).entries()),
    {
        proof {
            use_type_invariant(&*self);
        }
        let mut i: usize = 0;
        while i < self.wires.len()
            invariant
                i <= self.wires@.len(),
                forall|j: int| 0 <= j < i ==> #[trigger] self.wires@[j].name@ != entry.name@,
            decreases self.wires@.len() - i,
        {
            if str_eq(self.wires[i].name.as_str(), entry.name.as_str()) {
                proof {
                    use_type_invariant(&*self);
                }
                return false;
            }
            i = i + 1;
        }
        let mut ws: Vec<WireEntry> = Vec::new();
        std::mem::swap(&mut ws, &mut self.wires);
        let ghost before = ws@;
        ws.push(entry);
        assert forall|a: int, b: int| 0 <= a < b < ws@.len() implies #[trigger] ws@[a].name@
            != #[trigger] ws@[b].name@ by {
            if b < before.len() {
                assert(ws@[a] == before[a] && ws@[b] == before[b]);
            } else {
                assert(ws@[a] == before[a]);
            }
        }
        self.wires = ws;
        true
    }

    /// The wires connecting devices `from` and `to`, in either direction,
    /// each once.
    pub fn get_wires_between_devices(&self, from: &str, to: &str) -> (r: Vec<WireEntry>)
        ensures
            r@ == wires_between(self.entries(), from@, to@),
            names_distinct(r@),
    {
        proof {
            use_type_invariant(self);
            lemma_wires_between(self.wires@, from@, to@);
        }
        let mut result: Vec<WireEntry> = Vec::new();
        let mut i: usize = 0;
        while i < self.wires.len()
            invariant
                i <= self.wires@.len(),
                result@ == wires_between(self.wires@.take(i as int), from@, to@),
            decreases self.wires@.len() - i,
        {
            let w = &self.wires[i];
            assert(self.wires@.take(i + 1).drop_last() =~= self.wires@.take(i as int));
            assert(self.wires@.take(i + 1).last() == *w);
            let hit = match (&w.left, &w.right) {
                (Some(l), Some(r)) => (str_eq(l.device.as_str(), from) && str_eq(
                    r.device.as_str(),
                    to,
                )) || (str_eq(r.device.as_str(), from) && str_eq(l.device.as_str(), to)),
                _ => false,
            };
            if hit {
                result.push(w.clone());
            }
            i = i + 1;
        }
        assert(self.wires@.take(self.wires@.len() as int) =~= self.wires@);
        result
    }
}

/// The order of two numbers.
pub open spec fn int_order(a: int, b: int) -> Order {
    if a < b {
        Order::Less
    } else if a > b {
        Order::Greater
    } else {
        Order::Equal
    }
}

/// The order of two left ends: by device name; on the same device by pin
/// number when both pins are numbers, else by pin name. Wires without both
/// left ends compare equal.
pub open spec fn left_end_order(a: Option<WireEndEntry>, b: Option<WireEndEntry>) -> Order {
    match (a, b) {
        (Some(x), Some(y)) => {
            let dc = lex_order(x.device@, y.device@);
            if dc == Order::Equal {
                match (parse_i32(x.pin@), parse_i32(y.pin@)) {
                    (Some(p), Some(q)) => int_order(p as int, q as int),
                    _ => {
                        let pc = lex_order(x.pin@, y.pin@);
                        if pc == Order::Equal {
                            dc
                        } else {
                            pc
                        }
                    },
                }
            } else {
                dc
            }
        },
        _ => Order::Equal,
    }
}

/// The comparison of wire entries by left device and pin.
pub open spec fn wire_order(a: WireEntry, b: WireEntry) -> Order {
    left_end_order(a.left, b.left)
}

/// `wire_order` as a comparison function.
pub open spec fn wire_ord() -> spec_fn(WireEntry, WireEntry) -> Order {
    |a: WireEntry, b: WireEntry| wire_order(a, b)
}

/// The comparison by left device and pin is antisymmetric.
pub proof fn lemma_wire_order_antisymmetric()
    ensures
        antisymmetric(wire_ord()),
{
    assert forall|a: WireEntry, b: WireEntry| #[trigger]
        wire_ord()(a, b) == Order::Less implies wire_ord()(b, a) == Order::Greater by {
        match (a.left, b.left) {
            (Some(x), Some(y)) => {
                lemma_lex_order_flip(x.device@, y.device@);
                lemma_lex_order_flip(x.pin@, y.pin@);
            },
            _ => {},
        }
    }
}

fn int_order_exec(a: i32, b: i32) -> (r: Order)
    ensures
        r == int_order(a as int, b as int),
{
    if a < b {
        Order::Less
    } else if a > b {
        Order::Greater
    } else {
        Order::Equal
    }
}

fn compare_left_ends(a: &WireEntry, b: &WireEntry) -> (r: Order)
    ensures
        r == wire_order(*a, *b),
{
    match (&a.left, &b.left) {
        (Some(x), Some(y)) => {
            let dc = str_order(x.device.as_str(), y.device.as_str());
            if dc == Order::Equal {
                match (parse_i32_exec(x.pin.as_str()), parse_i32_exec(y.pin.as_str())) {
                    (Some(p), Some(q)) => int_order_exec(p, q),
                    _ => {
                        let pc = str_order(x.pin.as_str(), y.pin.as_str());
                        if pc == Order::Equal {
                            dc
                        } else {
                            pc
                        }
                    },
                }
            } else {
                dc
            }
        },
        _ => Order::Equal,
    }
}

/// Sort a wire list by left device and pin (stable insertion sort): the
/// result is a permutation in which no wire is ordered before its left
/// neighbour.
pub fn sort_wirelist_by_left_device_pin(wirelist: &mut Vec<WireEntry>)
    ensures
        final(wirelist)@ == isort(old(wirelist)@, wire_ord()),
        final(wirelist)@.to_multiset() == old(wirelist)@.to_multiset(),
        locally_sorted(final(wirelist)@, wire_ord()),
{
    let ghost orig = wirelist@;
    let ghost ord = wire_ord();
    let n = wirelist.len();
    let mut i: usize = 0;
    assert(orig.take(0) =~= Seq::<WireEntry>::empty());
    assert(wirelist@ =~= isort(orig.take(0), ord) + orig.skip(0));
    while i < n
        invariant
            n == orig.len(),
            i <= n,
            ord == wire_ord(),
            wirelist@ == isort(orig.take(i as int), ord) + orig.skip(i as int),
        decreases n - i,
    {
        let ghost t = isort(orig.take(i as int), ord);
        proof {
            lemma_isort_permutes(orig.take(i as int), ord);
        }
        assert(t.len() == i);
        assert(wirelist@[i as int] == orig[i as int]);
        let x = wirelist.remove(i);
        assert(wirelist@ =~= t + orig.skip(i + 1));
        let mut p: usize = i;
        while p > 0 && compare_left_ends(&x, &wirelist[p - 1]) == Order::Less
            invariant
                p <= i,
                i < n,
                t.len() == i,
                wirelist@ == t + orig.skip(i + 1),
                ord == wire_ord(),
                insert_pos(t, x, ord, i as nat) == insert_pos(t, x, ord, p as nat),
            decreases p,
        {
            assert(wirelist@[p - 1] == t[p - 1]);
            p = p - 1;
        }
        assert(p > 0 ==> wirelist@[p - 1] == t[p - 1]);
        assert(insert_pos(t, x, ord, p as nat) == p);
        wirelist.insert(p, x);
        assert(orig.take(i + 1).drop_last() =~= orig.take(i as int));
        assert(orig.take(i + 1).last() == x);
        assert(wirelist@ =~= t.insert(p as int, x) + orig.skip(i + 1));
        i = i + 1;
    }
    assert(orig.take(n as int) =~= orig);
    assert(orig.skip(n as int) =~= Seq::<WireEntry>::empty());
    assert(wirelist@ =~= isort(orig, ord));
    proof {
        lemma_isort_permutes(orig, ord);
        lemma_wire_order_antisymmetric();
        lemma_isort_locally_sorted(orig, ord);
    }
}

/// The strip length of a terminal, or `0` without one.
pub open spec fn terminal_strip(t: Option<TerminalPart>) -> Seq<char> {
    match t {
        Some(t) => t.striplength@,
        None => "0"@,
    }
}

/// The strip length of a splice, or `0` without one.
pub open spec fn splice_strip(t: Option<SplicePart>) -> Seq<char> {
    match t {
        Some(t) => t.striplength@,
        None => "0"@,
    }
}

/// A wire end at `device`/`pin` with termination `t`: the termination's
/// customer part number, the terminal's short name and strip length; `TODO`
/// as part number when there is no termination.
pub open spec fn termination_end(
    lib: Library,
    device: Seq<char>,
    pin: Seq<char>,
    t: Option<Seq<char>>,
) -> WireEndView {
    match t {
        None => WireEndView {
            device,
            pin,
            termination_partnumber: "TODO"@,
            termination_name: Seq::empty(),
            strip: "0"@,
        },
        Some(tt) => WireEndView {
            device,
            pin,
            termination_partnumber: or_empty(customer_partno_of(lib, tt)),
            termination_name: or_empty(terminal_short_name(terminal_of(lib, tt))),
            strip: terminal_strip(terminal_of(lib, tt)),
        },
    }
}

/// The wire end for a connection with termination `t`.
///
/// - A ring connector shows the device it is mated to (if a device or ground
///   device) and the ring itself as termination.
/// - Another connector, or a ground device, shows its pin and the
///   termination.
/// - A device does too, except that a `^` termination (two wires on one
///   terminal) is kept as it is, with no name.
/// - A splice shows its part number (customer one where known) and short
///   name instead of a termination.
pub open spec fn wire_end_of(lib: Library, c: Connection, t: Option<Seq<char>>) -> WireEndView {
    match c {
        Connection::Connector(cp) => if cp.is_ring {
            let mate: (Seq<char>, Seq<char>) = match cp.ring_connection {
                Some(RingMate::Device(dp)) => (dp.device@, dp.pin@),
                Some(RingMate::GroundDevice(dp)) => (dp.device@, dp.pin@),
                _ => (Seq::empty(), Seq::empty()),
            };
            let term = terminal_of(lib, cp.partno@);
            WireEndView {
                device: mate.0,
                pin: mate.1,
                termination_partnumber: cp.customer_partno@,
                termination_name: or_empty(terminal_short_name(term)),
                strip: terminal_strip(term),
            }
        } else {
            termination_end(lib, cp.connector@, cp.pin@, t)
        },
        Connection::Device(dp) => match t {
            Some(tt) => if trim(tt) == seq!['^'] {
                WireEndView {
                    device: dp.device@,
                    pin: dp.pin@,
                    termination_partnumber: "^"@,
                    termination_name: Seq::empty(),
                    strip: "0"@,
                }
            } else {
                termination_end(lib, dp.device@, dp.pin@, t)
            },
            None => termination_end(lib, dp.device@, dp.pin@, t),
        },
        Connection::GroundDevice(dp) => termination_end(lib, dp.device@, dp.pin@, t),
        Connection::Splice(sp) => match sp.partno {
            Some(lp) => WireEndView {
                device: sp.splice@,
                pin: sp.pin@,
                termination_partnumber: match customer_partno_of(lib, lp@) {
                    Some(c) => c,
                    None => lp@,
                },
                termination_name: or_empty(splice_short_name(splice_of(lib, lp@))),
                strip: splice_strip(splice_of(lib, lp@)),
            },
            None => WireEndView {
                device: sp.splice@,
                pin: sp.pin@,
                termination_partnumber: Seq::empty(),
                termination_name: Seq::empty(),
                strip: "0"@,
            },
        },
    }
}

fn text_or_empty(o: Option<&str>) -> (r: String)
    ensures
        r@ == or_empty(crate::text::opt_str_view(o)),
{
    match o {
        Some(s) => to_string(s),
        None => String::new(),
    }
}

fn terminal_end(library: &Library, device: &str, pin: &str, termination: &str) -> (e: WireEndEntry)
    ensures
        e@ == termination_end(*library, device@, pin@, Some(termination@)),
{
    let partno = text_or_empty(library.lookup_customer_partnumber(termination));
    let terminal = library.lookup_terminal_part(termination);
    let name = text_or_empty(library.lookup_terminal_short_name(terminal));
    let strip = match terminal {
        Some(t) => t.striplength.clone(),
        None => to_string("0"),
    };
    WireEndEntry {
        device: to_string(device),
        pin: to_string(pin),
        termination_partnumber: partno,
        termination_name: name,
        strip,
    }
}

fn todo_end(device: &str, pin: &str) -> (e: WireEndEntry)
    ensures
        e@ == termination_end(arbitrary(), device@, pin@, None),
{
    WireEndEntry {
        device: to_string(device),
        pin: to_string(pin),
        termination_partnumber: to_string("TODO"),
        termination_name: String::new(),
        strip: to_string("0"),
    }
}

/// The wire end for `connection` with `termination`.
fn process_connection(connection: &Connection, termination: &Option<String>, library: &Library) -> (e:
    WireEndEntry)
    ensures
        e@ == wire_end_of(*library, *connection, opt_string_view(*termination)),
{
    match connection {
        Connection::Connector(cp) => {
            if cp.is_ring {
                let (device, pin) = match &cp.ring_connection {
                    Some(RingMate::Device(dp)) => (dp.device.clone(), dp.pin.clone()),
                    Some(RingMate::GroundDevice(dp)) => (dp.device.clone(), dp.pin.clone()),
                    _ => (String::new(), String::new()),
                };
                let terminal = library.lookup_terminal_part(cp.partno.as_str());
                let name = text_or_empty(library.lookup_terminal_short_name(terminal));
                let strip = match terminal {
                    Some(t) => t.striplength.clone(),
                    None => to_string("0"),
                };
                WireEndEntry {
                    device,
                    pin,
                    termination_partnumber: cp.customer_partno.clone(),
                    termination_name: name,
                    strip,
                }
            } else {
                match termination {
                    Some(t) => terminal_end(library, cp.connector.as_str(), cp.pin.as_str(), t.as_str()),
                    None => todo_end(cp.connector.as_str(), cp.pin.as_str()),
                }
            }
        },
        Connection::Device(dp) => match termination {
            Some(t) => {
                if trims_to_caret(t.as_str()) {
                    WireEndEntry {
                        device: dp.device.clone(),
                        pin: dp.pin.clone(),
                        termination_partnumber: to_string("^"),
                        termination_name: String::new(),
                        strip: to_string("0"),
                    }
                } else {
                    terminal_end(library, dp.device.as_str(), dp.pin.as_str(), t.as_str())
                }
            },
            None => todo_end(dp.device.as_str(), dp.pin.as_str()),
        },
        Connection::GroundDevice(dp) => match termination {
            Some(t) => terminal_end(library, dp.device.as_str(), dp.pin.as_str(), t.as_str()),
            None => todo_end(dp.device.as_str(), dp.pin.as_str()),
        },
        Connection::Splice(sp) => match &sp.partno {
            Some(lp) => {
                let partno = match library.lookup_customer_partnumber(lp.as_str()) {
                    Some(c) => to_string(c),
                    None => lp.clone(),
                };
                let splice = library.lookup_splice_part(lp.as_str());
                let name = text_or_empty(library.lookup_splice_short_name(splice));
                let strip = match splice {
                    Some(t) => t.striplength.clone(),
                    None => to_string("0"),
                };
                WireEndEntry {
                    device: sp.splice.clone(),
                    pin: sp.pin.clone(),
                    termination_partnumber: partno,
                    termination_name: name,
                    strip,
                }
            },
            None => WireEndEntry {
                device: sp.splice.clone(),
                pin: sp.pin.clone(),
                termination_partnumber: String::new(),
                termination_name: String::new(),
                strip: to_string("0"),
            },
        },
    }
}

/// The end of `w` at connection index `i`, if it has one.
pub open spec fn wire_end_at(lib: Library, w: Wire, i: int) -> Option<WireEndView> {
    if i < w.connections@.len() {
        Some(
            wire_end_of(
                lib,
                w.connections@[i].connection,
                opt_string_view(w.connections@[i].termination),
            ),
        )
    } else {
        None
    }
}

/// The wire entry for `w`: its texts, its `PROCESSING` property, its color
/// description, and its first two connections as left and right ends.
pub open spec fn entry_of(lib: Library, w: Wire) -> WireEntryView {
    WireEntryView {
        name: w.name@,
        descr: w.short_descr@,
        partno: w.customer_partno@,
        material: w.material@,
        spec: w.spec@,
        processing: match w.partnumber {
            Some(p) => or_empty(wire_property_of(lib, p@, "PROCESSING"@)),
            None => Seq::empty(),
        },
        color_code: w.color@,
        color_description: or_empty(color_description_of(lib, w.color@)),
        length: w.length@,
        left: wire_end_at(lib, w, 0),
        right: wire_end_at(lib, w, 1),
        twisted_with: opt_string_view(w.twisted_with),
    }
}

/// The views of a sequence of wire entries.
pub open spec fn entries_views(s: Seq<WireEntry>) -> Seq<WireEntryView> {
    s.map_values(|e: WireEntry| e@)
}

/// The wire list of `ws`: one entry per wire, the first one of each name.
pub open spec fn wirelist_of(lib: Library, ws: Seq<Wire>) -> Seq<WireEntryView>
    decreases ws.len(),
{
    if ws.len() == 0 {
        Seq::empty()
    } else {
        let prev = wirelist_of(lib, ws.drop_last());
        if exists|i: int| 0 <= i < prev.len() && #[trigger] prev[i].name == ws.last().name@ {
            prev
        } else {
            prev.push(entry_of(lib, ws.last()))
        }
    }
}

fn end_at(library: &Library, w: &Wire, i: usize) -> (e: Option<WireEndEntry>)
    ensures
        opt_end_view(e) == wire_end_at(*library, *w, i as int),
{
    if i < w.connections.len() {
        let c = &w.connections[i];
        Some(process_connection(&c.connection, &c.termination, library))
    } else {
        None
    }
}

/// Build the wire list of harness `harness`: one entry per wire of the
/// harness (the first of each name), with both ends resolved against the
/// library.
pub fn generate_wirelist(library: &Library, connectivity: &Connectivity, harness: &str) -> (r:
    WireList)
    ensures
        entries_views(r.entries()) == wirelist_of(*library, wires_of(connectivity.wires@, harness@)),
{
    let wires = connectivity.get_wires(harness);
    let ghost ws = deref_wires(wires@);
    let mut wire_list = WireList::new();
    let mut i: usize = 0;
    while i < wires.len()
        invariant
            i <= wires@.len(),
            ws == deref_wires(wires@),
            ws == wires_of(connectivity.wires@, harness@),
            entries_views(wire_list.entries()) == wirelist_of(*library, ws.take(i as int)),
        decreases wires@.len() - i,
    {
        let wire = wires[i];
        assert(ws.take(i + 1).drop_last() =~= ws.take(i as int));
        assert(ws.take(i + 1).last() == *wire);
        let processing = match &wire.partnumber {
            Some(p) => text_or_empty(library.lookup_wire_property(p.as_str(), "PROCESSING")),
            None => String::new(),
        };
        let entry = WireEntry {
            name: wire.name.clone(),
            descr: wire.short_descr.clone(),
            partno: wire.customer_partno.clone(),
            material: wire.material.clone(),
            spec: wire.spec.clone(),
            processing,
            color_code: wire.color.clone(),
            color_description: text_or_empty(library.get_color_description(wire.color.as_str())),
            length: wire.length.clone(),
            left: end_at(library, wire, 0),
            right: end_at(library, wire, 1),
            twisted_with: clone_opt_string(&wire.twisted_with),
        };
        assert(entry@ == entry_of(*library, *wire));
        let ghost before = wire_list.entries();
        let added = wire_list.insert(entry);
        proof {
            let prev = entries_views(before);
            if added {
                assert(entries_views(wire_list.entries()) =~= prev.push(entry@));
                assert(!(exists|k: int| 0 <= k < prev.len() && #[trigger] prev[k].name == wire.name@)) by {
                    if exists|k: int| 0 <= k < prev.len() && #[trigger] prev[k].name == wire.name@ {
                        let k = choose|k: int| 0 <= k < prev.len() && #[trigger] prev[k].name == wire.name@;
                        assert(before[k].name@ == entry.name@);
                    }
                }
            } else {
                let k = choose|k: int| 0 <= k < before.len() && #[trigger] before[k].name@ == entry.name@;
                assert(prev[k].name == wire.name@);
            }
        }
        i = i + 1;
    }
    assert(ws.take(wires@.len() as int) =~= ws);
    wire_list
}

/// The (ID, display name) pairs of the wire list table's columns.
pub open spec fn wire_list_table_columns() -> Seq<(Seq<char>, Seq<char>)> {
    seq![
        (wire_list_columns::WIRE_NAME@, "Wire Item"@),
        (wire_list_columns::SHORT_DESCRIPTION@, "Description"@),
        (wire_list_columns::CUSTOMER_PART_NUMBER@, "Part No"@),
        (wire_list_columns::MATERIAL@, "Material"@),
        (wire_list_columns::SPEC@, "Spec"@),
        (wire_list_columns::COLOR@, "Color"@),
        (wire_list_columns::COLOR_DESCRIPTION@, "Color Desc"@),
        (wire_list_columns::WIRE_FROM_PINLIST@, "From Device"@),
        (wire_list_columns::WIRE_FROM_CAVITY@, "From Pin"@),
        (wire_list_columns::WIRE_TERMINAL_STRIP_LEN1@, "From Strip"@),
        (wire_list_columns::FROM_TERM_PARTNO@, "From Term"@),
        (wire_list_columns::FROM_TERM_NAME@, "From Term Name"@),
        (wire_list_columns::WIRE_TO_PINLIST@, "To Device"@),
        (wire_list_columns::WIRE_TO_CAVITY@, "To Pin"@),
        (wire_list_columns::WIRE_TERMINAL_STRIP_LEN2@, "To Strip"@),
        (wire_list_columns::TO_TERM_PARTNO@, "To Term"@),
        (wire_list_columns::TO_TERM_NAME@, "To Term Name"@),
        (wire_list_columns::MODIFIED_LENGTH@, "Length"@),
        (wire_list_columns::TWIST_WIDTH@, "Twist"@),
        (wire_list_columns::PROCESSING@, "Processing"@),
        (wire_list_columns::FROM_LABEL@, "From"@),
        (wire_list_columns::TO_LABEL@, "To"@),
    ]
}

/// A wire end, or the default end where there is none.
pub open spec fn end_or_default(e: Option<WireEndView>) -> WireEndView {
    match e {
        Some(x) => x,
        None => default_end_view(),
    }
}

/// The wire item text: the name, and ` (⤫ other)` for a twisted wire.
pub open spec fn wire_item(w: WireEntryView) -> Seq<char> {
    match w.twisted_with {
        Some(x) => w.name + " (⤫ "@ + x + ")"@,
        None => w.name,
    }
}

/// The cells of a wire's row, one per wire list column.
pub open spec fn wire_row(w: WireEntryView) -> Seq<Seq<char>> {
    let l = end_or_default(w.left);
    let r = end_or_default(w.right);
    seq![
        wire_item(w),
        w.descr,
        w.partno,
        w.material,
        w.spec,
        w.color_code,
        w.color_description,
        l.device,
        l.pin,
        l.strip,
        l.termination_partnumber,
        l.termination_name,
        r.device,
        r.pin,
        r.strip,
        r.termination_partnumber,
        r.termination_name,
        w.length,
        or_empty(w.twisted_with),
        w.processing,
        l.device + seq!['-'] + l.pin,
        r.device + seq!['-'] + r.pin,
    ]
}

/// The metadata of a wire's row: a boundary below the last wire of a group,
/// and the wire's color code where it has one.
pub open spec fn wire_meta(w: WireEntryView, last: bool) -> (bool, Option<Seq<char>>) {
    (
        last,
        if w.color_code.len() == 0 {
            None
        } else {
            Some(w.color_code)
        },
    )
}

/// The rows of a group: its wires sorted by left device and pin.
pub open spec fn group_cells(g: Seq<WireEntry>) -> Seq<Seq<Seq<char>>> {
    isort(g, wire_ord()).map_values(|w: WireEntry| wire_row(w@))
}

/// The metadata of a group's rows.
pub open spec fn group_metas(g: Seq<WireEntry>) -> Seq<(bool, Option<Seq<char>>)> {
    let s = isort(g, wire_ord());
    Seq::new(s.len(), |i: int| wire_meta(s[i]@, i == s.len() - 1))
}

fn end_fields(e: &Option<WireEndEntry>) -> (r: (String, String, String, String, String))
    ensures
        r.0@ == end_or_default(opt_end_view(*e)).device,
        r.1@ == end_or_default(opt_end_view(*e)).pin,
        r.2@ == end_or_default(opt_end_view(*e)).strip,
        r.3@ == end_or_default(opt_end_view(*e)).termination_partnumber,
        r.4@ == end_or_default(opt_end_view(*e)).termination_name,
{
    match e {
        Some(x) => (
            x.device.clone(),
            x.pin.clone(),
            x.strip.clone(),
            x.termination_partnumber.clone(),
            x.termination_name.clone(),
        ),
        None => (String::new(), String::new(), to_string("0"), String::new(), String::new()),
    }
}

fn wire_row_exec(wire: &WireEntry) -> (cells: Vec<String>)
    ensures
        strings_view(cells@) == wire_row(wire@),
{
    let (ld, lp, ls, lt, ln) = end_fields(&wire.left);
    let (rd, rp, rs, rt, rn) = end_fields(&wire.right);
    let mut item = wire.name.clone();
    match &wire.twisted_with {
        Some(x) => {
            item.append(" (⤫ ");
            item.append(x.as_str());
            item.append(")");
        },
        None => {},
    }
    let twist = match &wire.twisted_with {
        Some(x) => x.clone(),
        None => String::new(),
    };
    let from_label = crate::flexible_table::dash_join(ld.as_str(), lp.as_str());
    let to_label = crate::flexible_table::dash_join(rd.as_str(), rp.as_str());
    let mut cells: Vec<String> = Vec::new();
    cells.push(item);
    cells.push(wire.descr.clone());
    cells.push(wire.partno.clone());
    cells.push(wire.material.clone());
    cells.push(wire.spec.clone());
    cells.push(wire.color_code.clone());
    cells.push(wire.color_description.clone());
    cells.push(ld);
    cells.push(lp);
    cells.push(ls);
    cells.push(lt);
    cells.push(ln);
    cells.push(rd);
    cells.push(rp);
    cells.push(rs);
    cells.push(rt);
    cells.push(rn);
    cells.push(wire.length.clone());
    cells.push(twist);
    cells.push(wire.processing.clone());
    cells.push(from_label);
    cells.push(to_label);
    assert(strings_view(cells@) =~= wire_row(wire@));
    cells
}

fn column(id: &str, display: &str) -> (c: ColumnSpec)
    ensures
        c.id@ == id@,
        c.display@ == display@,
{
    ColumnSpec { id: to_string(id), display: to_string(display) }
}

fn wire_list_columns_exec() -> (cols: Vec<ColumnSpec>)
    ensures
        column_ids(cols@) == wire_list_table_columns().map_values(
            |p: (Seq<char>, Seq<char>)| p.0,
        ),
        column_displays(cols@) == wire_list_table_columns().map_values(
            |p: (Seq<char>, Seq<char>)| p.1,
        ),
{
    let mut c: Vec<ColumnSpec> = Vec::new();
    c.push(column(wire_list_columns::WIRE_NAME, "Wire Item"));
    c.push(column(wire_list_columns::SHORT_DESCRIPTION, "Description"));
    c.push(column(wire_list_columns::CUSTOMER_PART_NUMBER, "Part No"));
    c.push(column(wire_list_columns::MATERIAL, "Material"));
    c.push(column(wire_list_columns::SPEC, "Spec"));
    c.push(column(wire_list_columns::COLOR, "Color"));
    c.push(column(wire_list_columns::COLOR_DESCRIPTION, "Color Desc"));
    c.push(column(wire_list_columns::WIRE_FROM_PINLIST, "From Device"));
    c.push(column(wire_list_columns::WIRE_FROM_CAVITY, "From Pin"));
    c.push(column(wire_list_columns::WIRE_TERMINAL_STRIP_LEN1, "From Strip"));
    c.push(column(wire_list_columns::FROM_TERM_PARTNO, "From Term"));
    c.push(column(wire_list_columns::FROM_TERM_NAME, "From Term Name"));
    c.push(column(wire_list_columns::WIRE_TO_PINLIST, "To Device"));
    c.push(column(wire_list_columns::WIRE_TO_CAVITY, "To Pin"));
    c.push(column(wire_list_columns::WIRE_TERMINAL_STRIP_LEN2, "To Strip"));
    c.push(column(wire_list_columns::TO_TERM_PARTNO, "To Term"));
    c.push(column(wire_list_columns::TO_TERM_NAME, "To Term Name"));
    c.push(column(wire_list_columns::MODIFIED_LENGTH, "Length"));
    c.push(column(wire_list_columns::TWIST_WIDTH, "Twist"));
    c.push(column(wire_list_columns::PROCESSING, "Processing"));
    c.push(column(wire_list_columns::FROM_LABEL, "From"));
    c.push(column(wire_list_columns::TO_LABEL, "To"));
    assert(column_ids(c@) =~= wire_list_table_columns().map_values(
        |p: (Seq<char>, Seq<char>)| p.0,
    ));
    assert(column_displays(c@) =~= wire_list_table_columns().map_values(
        |p: (Seq<char>, Seq<char>)| p.1,
    ));
    c
}

/// Convert a grouped wire list to a `FlexibleTable`: the wire list columns,
/// then for each group in turn its wires sorted by left device and pin, one
/// row each, with a boundary below the last wire of the group.
pub fn wirelist_to_flexible_table(grouped_wirelist: Vec<Vec<WireEntry>>) -> (t: FlexibleTable)
    ensures
        column_ids(t.columns@) == wire_list_table_columns().map_values(
            |p: (Seq<char>, Seq<char>)| p.0,
        ),
        column_displays(t.columns@) == wire_list_table_columns().map_values(
            |p: (Seq<char>, Seq<char>)| p.1,
        ),
        rows_cells(t.rows@) == concat(
            grouped_wirelist@.map_values(|g: Vec<WireEntry>| group_cells(g@)),
        ),
        rows_metas(t.rows@) == concat(
            grouped_wirelist@.map_values(|g: Vec<WireEntry>| group_metas(g@)),
        ),
{
    let ghost orig = grouped_wirelist@;
    let ghost all_cells = orig.map_values(|g: Vec<WireEntry>| group_cells(g@));
    let ghost all_metas = orig.map_values(|g: Vec<WireEntry>| group_metas(g@));
    let mut groups = grouped_wirelist;
    let mut table = FlexibleTable::new(wire_list_columns_exec());
    let mut g: usize = 0;
    while g < groups.len()
        invariant
            groups@.len() == orig.len(),
            g <= orig.len(),
            all_cells == orig.map_values(|g: Vec<WireEntry>| group_cells(g@)),
            all_metas == orig.map_values(|g: Vec<WireEntry>| group_metas(g@)),
            forall|j: int| g <= j < orig.len() ==> #[trigger] groups@[j] == orig[j],
            column_ids(table.columns@) == wire_list_table_columns().map_values(
                |p: (Seq<char>, Seq<char>)| p.0,
            ),
            column_displays(table.columns@) == wire_list_table_columns().map_values(
                |p: (Seq<char>, Seq<char>)| p.1,
            ),
            rows_cells(table.rows@) == concat(all_cells.take(g as int)),
            rows_metas(table.rows@) == concat(all_metas.take(g as int)),
        decreases orig.len() - g,
    {
        let mut group: Vec<WireEntry> = Vec::new();
        groups.set_and_swap(g, &mut group);
        assert(group == orig[g as int]);
        sort_wirelist_by_left_device_pin(&mut group);
        let ghost sorted = group@;
        let ghost base_cells = rows_cells(table.rows@);
        let ghost base_metas = rows_metas(table.rows@);
        let n = group.len();
        let mut i: usize = 0;
        while i < n
            invariant
                n == sorted.len(),
                sorted == group@,
                i <= n,
                sorted == isort(orig[g as int]@, wire_ord()),
                column_ids(table.columns@) == wire_list_table_columns().map_values(
                    |p: (Seq<char>, Seq<char>)| p.0,
                ),
                column_displays(table.columns@) == wire_list_table_columns().map_values(
                    |p: (Seq<char>, Seq<char>)| p.1,
                ),
                rows_cells(table.rows@) == base_cells + group_cells(orig[g as int]@).take(i as int),
                rows_metas(table.rows@) == base_metas + group_metas(orig[g as int]@).take(i as int),
            decreases n - i,
        {
            let wire = &group[i];
            let cells = wire_row_exec(wire);
            let color = if wire.color_code.unicode_len() == 0 {
                None
            } else {
                Some(wire.color_code.clone())
            };
            let meta = RowMeta { group_boundary_below: i == n - 1, color_code: color };
            assert(meta_view(meta) == wire_meta(wire@, i == n - 1));
            let ghost prev = table.rows@;
            table.rows.push(FlexibleRow { cells, meta });
            assert(rows_cells(table.rows@) =~= rows_cells(prev).push(wire_row(wire@)));
            assert(rows_metas(table.rows@) =~= rows_metas(prev).push(meta_view(meta)));
            assert(group_cells(orig[g as int]@).take(i + 1) =~= group_cells(orig[g as int]@).take(
                i as int,
            ).push(wire_row(wire@)));
            assert(group_metas(orig[g as int]@).take(i + 1) =~= group_metas(orig[g as int]@).take(
                i as int,
            ).push(wire_meta(wire@, i == n - 1)));
            i = i + 1;
        }
        proof {
            lemma_isort_permutes(orig[g as int]@, wire_ord());
            assert(group_cells(orig[g as int]@).take(n as int) =~= group_cells(orig[g as int]@));
            assert(group_metas(orig[g as int]@).take(n as int) =~= group_metas(orig[g as int]@));
            assert(all_cells.take(g + 1).drop_last() =~= all_cells.take(g as int));
            assert(all_metas.take(g + 1).drop_last() =~= all_metas.take(g as int));
        }
        g = g + 1;
    }
    assert(all_cells.take(orig.len() as int) =~= all_cells);
    assert(all_metas.take(orig.len() as int) =~= all_metas);
    table
}

/// The `name-pin` label of a connection.
pub open spec fn connection_label(c: Connection) -> Seq<char> {
    match c {
        Connection::Device(dp) => dp.device@ + seq!['-'] + dp.pin@,
        Connection::GroundDevice(dp) => dp.device@ + seq!['-'] + dp.pin@,
        Connection::Connector(cp) => cp.connector@ + seq!['-'] + cp.pin@,
        Connection::Splice(sp) => sp.splice@ + seq!['-'] + sp.pin@,
    }
}

/// The `name-pin` label of a connection.
fn format_connection(conn: &Connection) -> (r: String)
    ensures
        r@ == connection_label(*conn),
{
    match conn {
        Connection::Device(d) => crate::flexible_table::dash_join(d.device.as_str(), d.pin.as_str()),
        Connection::GroundDevice(d) => crate::flexible_table::dash_join(
            d.device.as_str(),
            d.pin.as_str(),
        ),
        Connection::Connector(c) => crate::flexible_table::dash_join(
            c.connector.as_str(),
            c.pin.as_str(),
        ),
        Connection::Splice(sp) => crate::flexible_table::dash_join(sp.splice.as_str(), sp.pin.as_str()),
    }
}

/// What the connector table shows of a wire: name, description and the
/// labels of its first two connections.
pub struct WireInfoView {
    pub name: Seq<char>,
    pub description: Seq<char>,
    pub from_label: Seq<char>,
    pub to_label: Seq<char>,
}

/// The label of the connection of `w` at index `i`, or empty.
pub open spec fn connection_label_at(w: Wire, i: int) -> Seq<char> {
    if i < w.connections@.len() {
        connection_label(w.connections@[i].connection)
    } else {
        Seq::empty()
    }
}

/// The connector table's view of wire `w`.
pub open spec fn wire_info(w: Wire) -> WireInfoView {
    WireInfoView {
        name: w.name@,
        description: w.short_descr@,
        from_label: connection_label_at(w, 0),
        to_label: connection_label_at(w, 1),
    }
}

/// Whether pin reference `pinref` resolves to a pin of connector `d`.
pub open spec fn on_connector(c: Connectivity, d: XmlConnector, pinref: Seq<char>) -> bool {
    match connection_of(c, pinref) {
        Some(Connection::Connector(cp)) => cp.connector@ == d.name@,
        _ => false,
    }
}

/// The (pin reference, wire) pairs for the references of `w` in `refs` that
/// are on connector `d`, in order.
pub open spec fn ref_matches(
    c: Connectivity,
    d: XmlConnector,
    w: Wire,
    refs: Seq<XmlConnectionRef>,
) -> Seq<(Seq<char>, WireInfoView)>
    decreases refs.len(),
{
    if refs.len() == 0 {
        Seq::empty()
    } else {
        let prev = ref_matches(c, d, w, refs.drop_last());
        if on_connector(c, d, refs.last().pinref@) {
            prev.push((refs.last().pinref@, wire_info(w)))
        } else {
            prev
        }
    }
}

/// The (pin reference, wire) pairs of all wires of `ws` on connector `d`.
pub open spec fn connector_matches(c: Connectivity, d: XmlConnector, ws: Seq<Wire>) -> Seq<
    (Seq<char>, WireInfoView),
>
    decreases ws.len(),
{
    if ws.len() == 0 {
        Seq::empty()
    } else {
        connector_matches(c, d, ws.drop_last()) + ref_matches(
            c,
            d,
            ws.last(),
            ws.last().connection@,
        )
    }
}

/// The harness of a connector: its own, or the empty name.
pub open spec fn connector_harness(d: XmlConnector) -> Seq<char> {
    or_empty(opt_string_view(d.harness))
}

/// The (pin reference, wire) pairs of the wires of the connector's harness.
pub open spec fn connector_wire_matches(c: Connectivity, d: XmlConnector) -> Seq<
    (Seq<char>, WireInfoView),
> {
    connector_matches(c, d, wires_of(c.wires@, connector_harness(d)))
}

/// `ks` with each key kept at its first occurrence only.
pub open spec fn dedup(ks: Seq<Seq<char>>) -> Seq<Seq<char>>
    decreases ks.len(),
{
    if ks.len() == 0 {
        Seq::empty()
    } else {
        let p = dedup(ks.drop_last());
        if p.contains(ks.last()) {
            p
        } else {
            p.push(ks.last())
        }
    }
}

/// The IDs of the connector's pins, in order.
pub open spec fn pin_ids(d: XmlConnector) -> Seq<Seq<char>> {
    d.pin@.map_values(|p: XmlPin| p.id@)
}

/// The pins of the connector table: every pin of the connector, then every
/// other pin reference a wire of the harness has on it, each once.
pub open spec fn pin_keys(c: Connectivity, d: XmlConnector) -> Seq<Seq<char>> {
    dedup(
        pin_ids(d) + connector_wire_matches(c, d).map_values(
            |m: (Seq<char>, WireInfoView)| m.0,
        ),
    )
}

/// The wires of `ms` at pin `key`, in order.
pub open spec fn infos_for(ms: Seq<(Seq<char>, WireInfoView)>, key: Seq<char>) -> Seq<
    WireInfoView,
>
    decreases ms.len(),
{
    if ms.len() == 0 {
        Seq::empty()
    } else {
        let prev = infos_for(ms.drop_last(), key);
        if ms.last().0 == key {
            prev.push(ms.last().1)
        } else {
            prev
        }
    }
}

/// The display name of pin `key`: the name of the first pin with that ID,
/// or the ID itself.
pub open spec fn pin_name(d: XmlConnector, key: Seq<char>) -> Seq<char> {
    match first_match(d.pin@, |p: XmlPin| p.id@ == key) {
        Some(p) => p.name@,
        None => key,
    }
}

/// Pins compared by display name.
pub open spec fn pin_key_ord(d: XmlConnector) -> spec_fn(Seq<char>, Seq<char>) -> Order {
    |a: Seq<char>, b: Seq<char>| lex_order(pin_name(d, a), pin_name(d, b))
}

/// The pins of the connector table sorted by display name.
pub open spec fn sorted_pin_keys(c: Connectivity, d: XmlConnector) -> Seq<Seq<char>> {
    isort(pin_keys(c, d), pin_key_ord(d))
}

/// The rows of pin `key`: one per wire on it, or one empty row.
pub open spec fn pin_rows(d: XmlConnector, ms: Seq<(Seq<char>, WireInfoView)>, key: Seq<char>) -> Seq<
    Seq<Seq<char>>,
> {
    let name = pin_name(d, key);
    let infos = infos_for(ms, key);
    if infos.len() == 0 {
        seq![seq![name, Seq::empty(), Seq::empty(), Seq::empty(), Seq::empty()]]
    } else {
        infos.map_values(
            |i: WireInfoView| seq![name, i.name, i.description, i.from_label, i.to_label],
        )
    }
}

/// The cells of the connector table.
pub open spec fn connector_table_cells(c: Connectivity, d: XmlConnector) -> Seq<Seq<Seq<char>>> {
    concat(
        sorted_pin_keys(c, d).map_values(
            |k: Seq<char>| pin_rows(d, connector_wire_matches(c, d), k),
        ),
    )
}

/// The (ID, display name) pairs of the connector table's columns.
pub open spec fn connector_table_columns() -> Seq<(Seq<char>, Seq<char>)> {
    seq![
        ("pin"@, "Pin"@),
        ("wire"@, "Wire"@),
        ("description"@, "Description"@),
        ("from"@, "From"@),
        ("to"@, "To"@),
    ]
}

struct WireInfo {
    name: String,
    description: String,
    from_label: String,
    to_label: String,
}

spec fn info_view(i: WireInfo) -> WireInfoView {
    WireInfoView {
        name: i.name@,
        description: i.description@,
        from_label: i.from_label@,
        to_label: i.to_label@,
    }
}

spec fn infos_view(v: Seq<WireInfo>) -> Seq<WireInfoView> {
    v.map_values(|i: WireInfo| info_view(i))
}

struct PinWires {
    id: String,
    name: String,
    infos: Vec<WireInfo>,
}

spec fn keys_of(v: Seq<PinWires>) -> Seq<Seq<char>> {
    v.map_values(|p: PinWires| p.id@)
}

spec fn pin_wires_ord(d: XmlConnector) -> spec_fn(PinWires, PinWires) -> Order {
    |a: PinWires, b: PinWires| lex_order(pin_name(d, a.id@), pin_name(d, b.id@))
}

proof fn lemma_dedup(ks: Seq<Seq<char>>)
    ensures
        forall|i: int, j: int|
            #![trigger dedup(ks)[i], dedup(ks)[j]]
            0 <= i < j < dedup(ks).len() ==> dedup(ks)[i] != dedup(ks)[j],
        forall|k: Seq<char>| #[trigger] dedup(ks).contains(k) <==> ks.contains(k),
    decreases ks.len(),
{
    if ks.len() > 0 {
        let p = ks.drop_last();
        let l = ks.last();
        lemma_dedup(p);
        let dp = dedup(p);
        assert(ks =~= p.push(l));
        assert forall|k: Seq<char>| #[trigger] dedup(ks).contains(k) <==> ks.contains(k) by {
            if ks.contains(k) {
                let i = choose|i: int| 0 <= i < ks.len() && ks[i] == k;
                if i < p.len() {
                    assert(p[i] == k);
                    assert(p.contains(k));
                    assert(dp.contains(k));
                    let j = choose|j: int| 0 <= j < dp.len() && dp[j] == k;
                    if !dp.contains(l) {
                        assert(dp.push(l)[j] == k);
                    }
                } else {
                    assert(k == l);
                    if !dp.contains(l) {
                        assert(dp.push(l)[dp.len() as int] == k);
                    }
                }
            }
            if dedup(ks).contains(k) {
                let j = choose|j: int| 0 <= j < dedup(ks).len() && dedup(ks)[j] == k;
                if dp.contains(l) {
                    assert(dp.contains(k));
                } else if j < dp.len() {
                    assert(dp.push(l)[j] == dp[j]);
                    assert(dp.contains(k));
                } else {
                    assert(k == l);
                    assert(ks[ks.len() - 1] == k);
                }
                if dp.contains(k) {
                    assert(p.contains(k));
                    let i = choose|i: int| 0 <= i < p.len() && p[i] == k;
                    assert(ks[i] == k);
                }
            }
        }
        if !dp.contains(l) {
            assert forall|i: int, j: int| 0 <= i < j < dp.push(l).len() implies #[trigger] dp.push(
                l,
            )[i] != #[trigger] dp.push(l)[j] by {
                if j == dp.len() {
                    assert(dp.push(l)[i] == dp[i]);
                } else {
                    assert(dp.push(l)[i] == dp[i]);
                    assert(dp.push(l)[j] == dp[j]);
                }
            }
        }
    }
}

/// `infos_for` of a prefix grows by the new match at its key only.
proof fn lemma_infos_for_push(
    ms: Seq<(Seq<char>, WireInfoView)>,
    m: (Seq<char>, WireInfoView),
    key: Seq<char>,
)
    ensures
        infos_for(ms.push(m), key) == if m.0 == key {
            infos_for(ms, key).push(m.1)
        } else {
            infos_for(ms, key)
        },
{
    assert(ms.push(m).drop_last() =~= ms);
}

fn wire_info_exec(w: &Wire) -> (r: WireInfo)
    ensures
        info_view(r) == wire_info(*w),
{
    let from_label = if w.connections.len() > 0 {
        format_connection(&w.connections[0].connection)
    } else {
        String::new()
    };
    let to_label = if w.connections.len() > 1 {
        format_connection(&w.connections[1].connection)
    } else {
        String::new()
    };
    WireInfo {
        name: w.name.clone(),
        description: w.short_descr.clone(),
        from_label,
        to_label,
    }
}

fn pin_name_exec(d: &XmlConnector, key: &str) -> (r: String)
    ensures
        r@ == pin_name(*d, key@),
{
    let ghost f = |p: XmlPin| p.id@ == key@;
    let ghost s = d.pin@;
    let mut i: usize = 0;
    assert(s.skip(0) =~= s);
    while i < d.pin.len()
        invariant
            i <= s.len(),
            s == d.pin@,
            f == (|p: XmlPin| p.id@ == key@),
            first_match(s, f) == first_match(s.skip(i as int), f),
        decreases s.len() - i,
    {
        assert(s.skip(i as int)[0] == s[i as int]);
        if str_eq(d.pin[i].id.as_str(), key) {
            return d.pin[i].name.clone();
        }
        assert(s.skip(i as int).drop_first() =~= s.skip(i + 1));
        i = i + 1;
    }
    to_string(key)
}

fn find_key(entries: &Vec<PinWires>, key: &str) -> (r: Option<usize>)
    ensures
        match r {
            Some(q) => q < entries@.len() && entries@[q as int].id@ == key@,
            None => !keys_of(entries@).contains(key@),
        },
{
    let mut i: usize = 0;
    while i < entries.len()
        invariant
            i <= entries@.len(),
            forall|j: int| 0 <= j < i ==> #[trigger] entries@[j].id@ != key@,
        decreases entries@.len() - i,
    {
        if str_eq(entries[i].id.as_str(), key) {
            return Some(i);
        }
        i = i + 1;
    }
    proof {
        if keys_of(entries@).contains(key@) {
            let j = choose|j: int| 0 <= j < keys_of(entries@).len() && keys_of(entries@)[j] == key@;
            assert(entries@[j].id@ == key@);
        }
    }
    None
}

/// Whether the pin entries stand for the pin keys of `base` followed by
/// matches `ms`: their IDs are those keys in order, each with its name and
/// the wires of `ms` at it.
spec fn entries_match(
    d: XmlConnector,
    v: Seq<PinWires>,
    base: Seq<Seq<char>>,
    ms: Seq<(Seq<char>, WireInfoView)>,
) -> bool {
    &&& keys_of(v) == dedup(base + ms.map_values(|m: (Seq<char>, WireInfoView)| m.0))
    &&& forall|q: int|
        0 <= q < v.len() ==> #[trigger] infos_view(v[q].infos@) == infos_for(ms, v[q].id@)
            && v[q].name@ == pin_name(d, v[q].id@)
}

/// Record match (`key`, `info`) in the pin entries.
#[verifier::spinoff_prover]
fn add_match(
    d: &XmlConnector,
    entries: &mut Vec<PinWires>,
    key: &str,
    info: WireInfo,
    base: Ghost<Seq<Seq<char>>>,
    ms: Ghost<Seq<(Seq<char>, WireInfoView)>>,
)
    requires
        entries_match(*d, old(entries)@, base@, ms@),
    ensures
        entries_match(*d, final(entries)@, base@, ms@.push((key@, info_view(info)))),
{
    let ghost m = (key@, info_view(info));
    let ghost ms2 = ms@.push(m);
    let ghost keys = ms@.map_values(|m: (Seq<char>, WireInfoView)| m.0);
    assert(ms2.map_values(|m: (Seq<char>, WireInfoView)| m.0) =~= keys.push(key@));
    assert(base@ + keys.push(key@) =~= (base@ + keys).push(key@));
    assert((base@ + keys).push(key@).drop_last() =~= base@ + keys);
    assert((base@ + keys).push(key@).last() == key@);
    let ghost new_keys = dedup(base@ + ms2.map_values(|m: (Seq<char>, WireInfoView)| m.0));
    assert(new_keys == if dedup(base@ + keys).contains(key@) {
        dedup(base@ + keys)
    } else {
        dedup(base@ + keys).push(key@)
    });
    proof {
        lemma_dedup(base@ + keys);
    }
    match find_key(entries, key) {
        Some(q) => {
            let ghost before = entries@;
            let mut pw = PinWires { id: String::new(), name: String::new(), infos: Vec::new() };
            entries.set_and_swap(q, &mut pw);
            let ghost prev_infos = pw.infos@;
            let ghost pid = pw.id;
            let ghost pname = pw.name;
            assert(pid == before[q as int].id && pname == before[q as int].name);
            pw.infos.push(info);
            assert(pw.id == pid && pw.name == pname);
            assert(infos_view(pw.infos@) =~= infos_view(prev_infos).push(info_view(info)));
            entries.set(q, pw);
            assert(keys_of(before).contains(key@)) by {
                assert(keys_of(before)[q as int] == key@);
            }
            assert(keys_of(entries@) =~= keys_of(before));
            assert forall|r: int| 0 <= r < entries@.len() implies #[trigger] infos_view(
                entries@[r].infos@,
            ) == infos_for(ms2, entries@[r].id@) && entries@[r].name@ == pin_name(
                *d,
                entries@[r].id@,
            ) by {
                lemma_infos_for_push(ms@, m, entries@[r].id@);
                if r != q {
                    assert(entries@[r] == before[r]);
                    let kk = dedup(base@ + keys);
                    assert(keys_of(before) == kk);
                    assert(kk[r] == before[r].id@);
                    assert(kk[q as int] == before[q as int].id@);
                    if r < q {
                        assert(kk[r] != kk[q as int]);
                    } else {
                        assert(kk[q as int] != kk[r]);
                    }
                    assert(infos_view(before[r].infos@) == infos_for(ms@, before[r].id@));
                } else {
                    assert(entries@[r] == pw);
                    assert(infos_view(before[r].infos@) == infos_for(ms@, before[r].id@));
                }
            }
            assert(keys_of(entries@) == new_keys);
            assert(entries_match(*d, entries@, base@, ms2));
        },
        None => {
            let ghost before = entries@;
            let name = pin_name_exec(d, key);
            let mut infos: Vec<WireInfo> = Vec::new();
            infos.push(info);
            assert(infos_view(infos@) =~= seq![info_view(info)]);
            entries.push(PinWires { id: to_string(key), name, infos });
            assert(keys_of(entries@) =~= keys_of(before).push(key@));
            assert forall|r: int| 0 <= r < entries@.len() implies #[trigger] infos_view(
                entries@[r].infos@,
            ) == infos_for(ms2, entries@[r].id@) && entries@[r].name@ == pin_name(
                *d,
                entries@[r].id@,
            ) by {
                lemma_infos_for_push(ms@, m, entries@[r].id@);
                if r < before.len() {
                    assert(entries@[r] == before[r]);
                    assert(keys_of(before)[r] == before[r].id@);
                } else {
                    assert(infos_for(ms@, key@).len() == 0) by {
                        assert(!dedup(base@ + keys).contains(key@));
                        assert(!(base@ + keys).contains(key@));
                        assert forall|i: int| 0 <= i < ms@.len() implies (#[trigger] ms@[i]).0
                            != key@ by {
                            assert(keys[i] == ms@[i].0);
                            assert((base@ + keys)[base@.len() + i] == keys[i]);
                        }
                        lemma_infos_for_absent(ms@, key@);
                    }
                }
            }
            assert(keys_of(entries@) == new_keys);
            assert(entries_match(*d, entries@, base@, ms2));
        },
    }
}

/// A key no match carries has no wires.
proof fn lemma_infos_for_absent(ms: Seq<(Seq<char>, WireInfoView)>, key: Seq<char>)
    requires
        forall|i: int| 0 <= i < ms.len() ==> (#[trigger] ms[i]).0 != key,
    ensures
        infos_for(ms, key).len() == 0,
    decreases ms.len(),
{
    if ms.len() > 0 {
        let p = ms.drop_last();
        assert forall|i: int| 0 <= i < p.len() implies (#[trigger] p[i]).0 != key by {
            assert(p[i] == ms[i]);
        }
        lemma_infos_for_absent(p, key);
        assert(ms[ms.len() - 1].0 != key);
    }
}

/// The property every pin entry keeps: its wires are those of `ms` at its
/// pin, and its name is the pin's display name.
spec fn pin_entry_ok(d: XmlConnector, ms: Seq<(Seq<char>, WireInfoView)>, e: PinWires) -> bool {
    infos_view(e.infos@) == infos_for(ms, e.id@) && e.name@ == pin_name(d, e.id@)
}

/// Sort pin entries by display name (stable insertion sort).
fn sort_pins(d: &XmlConnector, entries: &mut Vec<PinWires>, ms: Ghost<Seq<(Seq<char>, WireInfoView)>>)
    requires
        forall|k: int| 0 <= k < old(entries)@.len() ==> pin_entry_ok(*d, ms@, #[trigger] old(entries)@[k]),
    ensures
        final(entries)@ == isort(old(entries)@, pin_wires_ord(*d)),
        forall|k: int| 0 <= k < final(entries)@.len() ==> pin_entry_ok(*d, ms@, #[trigger] final(entries)@[k]),
{
    let ghost orig = entries@;
    let ghost ord = pin_wires_ord(*d);
    let n = entries.len();
    let mut i: usize = 0;
    assert(orig.take(0) =~= Seq::<PinWires>::empty());
    assert(entries@ =~= isort(orig.take(0), ord) + orig.skip(0));
    while i < n
        invariant
            n == orig.len(),
            i <= n,
            ord == pin_wires_ord(*d),
            entries@ == isort(orig.take(i as int), ord) + orig.skip(i as int),
            entries@.len() == n,
            forall|k: int| 0 <= k < entries@.len() ==> pin_entry_ok(*d, ms@, #[trigger] entries@[k]),
        decreases n - i,
    {
        let ghost t = isort(orig.take(i as int), ord);
        proof {
            lemma_isort_permutes(orig.take(i as int), ord);
        }
        assert(t.len() == i);
        assert(entries@[i as int] == orig[i as int]);
        assert(pin_entry_ok(*d, ms@, entries@[i as int]));
        let x = entries.remove(i);
        assert(entries@ =~= t + orig.skip(i + 1));
        assert(forall|k: int| 0 <= k < entries@.len() ==> pin_entry_ok(*d, ms@, #[trigger] entries@[k])) by {
            assert forall|k: int| 0 <= k < entries@.len() implies pin_entry_ok(*d, ms@, #[trigger] entries@[k]) by {
                if k < i {
                    assert(entries@[k] == isort(orig.take(i as int), ord)[k]);
                }
            }
        }
        let mut p: usize = i;
        while p > 0 && str_order(x.name.as_str(), entries[p - 1].name.as_str()) == Order::Less
            invariant
                p <= i,
                i < n,
                t.len() == i,
                entries@ == t + orig.skip(i + 1),
                ord == pin_wires_ord(*d),
                pin_entry_ok(*d, ms@, x),
                forall|k: int| 0 <= k < entries@.len() ==> pin_entry_ok(*d, ms@, #[trigger] entries@[k]),
                insert_pos(t, x, ord, i as nat) == insert_pos(t, x, ord, p as nat),
            decreases p,
        {
            assert(entries@[p - 1] == t[p - 1]);
            assert(pin_entry_ok(*d, ms@, entries@[p - 1]));
            p = p - 1;
        }
        proof {
            if p > 0 {
                assert(entries@[p - 1] == t[p - 1]);
                assert(pin_entry_ok(*d, ms@, entries@[p - 1]));
            }
        }
        assert(insert_pos(t, x, ord, p as nat) == p);
        let ghost before = entries@;
        entries.insert(p, x);
        assert forall|k: int| 0 <= k < entries@.len() implies pin_entry_ok(*d, ms@, #[trigger] entries@[k]) by {
            if k < p {
                assert(entries@[k] == before[k]);
            } else if k > p {
                assert(entries@[k] == before[k - 1]);
            }
        }
        assert(orig.take(i + 1).drop_last() =~= orig.take(i as int));
        assert(orig.take(i + 1).last() == x);
        assert(entries@ =~= t.insert(p as int, x) + orig.skip(i + 1));
        i = i + 1;
    }
    assert(orig.take(n as int) =~= orig);
    assert(orig.skip(n as int) =~= Seq::<PinWires>::empty());
    assert(entries@ =~= isort(orig, ord));
}

fn push_pin_row(table: &mut FlexibleTable, name: &String, a: String, b: String, c: String, e: String)
    ensures
        final(table).columns@ == old(table).columns@,
        rows_cells(final(table).rows@) == rows_cells(old(table).rows@).push(
            seq![name@, a@, b@, c@, e@],
        ),
        rows_metas(final(table).rows@) == rows_metas(old(table).rows@).push(default_meta()),
{
    let mut cells: Vec<String> = Vec::new();
    cells.push(name.clone());
    cells.push(a);
    cells.push(b);
    cells.push(c);
    cells.push(e);
    let ghost prev = table.rows@;
    table.rows.push(FlexibleRow { cells, meta: RowMeta::default() });
    assert(strings_view(cells@) =~= seq![name@, a@, b@, c@, e@]);
    assert(rows_cells(table.rows@) =~= rows_cells(prev).push(strings_view(cells@)));
    assert(rows_metas(table.rows@) =~= rows_metas(prev).push(default_meta()));
}

/// Build a table of all pins of a connector and the wires connected to each:
/// every pin of the connector (also those without wires) and every other pin
/// reference of the harness's wires on it, sorted by pin name, with one row
/// per wire (name, description, from, to), or one empty row.
pub fn connector_connections_to_flexible_table(
    connectivity: &Connectivity,
    connector_dom: &XmlConnector,
) -> (t: FlexibleTable)
    ensures
        column_ids(t.columns@) == connector_table_columns().map_values(
            |p: (Seq<char>, Seq<char>)| p.0,
        ),
        column_displays(t.columns@) == connector_table_columns().map_values(
            |p: (Seq<char>, Seq<char>)| p.1,
        ),
        rows_cells(t.rows@) == connector_table_cells(*connectivity, *connector_dom),
        rows_metas(t.rows@) == Seq::new(t.rows@.len(), |i: int| default_meta()),
{
    let d = connector_dom;
    let harness: &str = match &d.harness {
        Some(h) => h.as_str(),
        None => {
            proof {
                reveal_strlit("");
            }
            ""
        },
    };
    assert(harness@ =~= connector_harness(*d));
    let ghost ids = pin_ids(*d);
    let ghost no_ms = Seq::<(Seq<char>, WireInfoView)>::empty();
    let mut entries: Vec<PinWires> = Vec::new();
    let mut i: usize = 0;
    assert(no_ms.map_values(|m: (Seq<char>, WireInfoView)| m.0) =~= Seq::<Seq<char>>::empty());
    assert(ids.take(0) + Seq::<Seq<char>>::empty() =~= Seq::<Seq<char>>::empty());
    assert(keys_of(entries@) =~= Seq::<Seq<char>>::empty());
    while i < d.pin.len()
        invariant
            i <= d.pin@.len(),
            ids == pin_ids(*d),
            no_ms == Seq::<(Seq<char>, WireInfoView)>::empty(),
            entries_match(*d, entries@, ids.take(i as int), no_ms),
        decreases d.pin@.len() - i,
    {
        let id = &d.pin[i].id;
        let ghost base = ids.take(i as int);
        let ghost base2 = ids.take(i + 1);
        assert(no_ms.map_values(|m: (Seq<char>, WireInfoView)| m.0) =~= Seq::<Seq<char>>::empty());
        assert(base + Seq::<Seq<char>>::empty() =~= base);
        assert(base2 + Seq::<Seq<char>>::empty() =~= base2);
        assert(base2.drop_last() =~= base);
        assert(base2.last() == id@);
        proof {
            lemma_dedup(base);
        }
        assert(dedup(base2) == if dedup(base).contains(id@) {
            dedup(base)
        } else {
            dedup(base).push(id@)
        });
        match find_key(&entries, id.as_str()) {
            Some(q) => {
                assert(keys_of(entries@)[q as int] == id@);
                assert(dedup(base).contains(id@));
            },
            None => {
                let ghost before = entries@;
                let name = pin_name_exec(d, id.as_str());
                let no_infos: Vec<WireInfo> = Vec::new();
                assert(infos_view(no_infos@) =~= Seq::<WireInfoView>::empty());
                let pw = PinWires { id: id.clone(), name, infos: no_infos };
                assert(pw.id@ == id@ && pw.name@ == pin_name(*d, id@));
                entries.push(pw);
                assert(keys_of(entries@) =~= keys_of(before).push(id@));
                assert forall|r: int| 0 <= r < entries@.len() implies #[trigger] infos_view(
                    entries@[r].infos@,
                ) == infos_for(no_ms, entries@[r].id@) && entries@[r].name@ == pin_name(
                    *d,
                    entries@[r].id@,
                ) by {
                    if r < before.len() {
                        assert(entries@[r] == before[r]);
                        assert(infos_view(before[r].infos@) == infos_for(no_ms, before[r].id@));
                    } else {
                        assert(entries@[r] == pw);
                        assert(infos_for(no_ms, id@) =~= Seq::<WireInfoView>::empty());
                        assert(infos_view(entries@[r].infos@) =~= Seq::<WireInfoView>::empty());
                    }
                }
            },
        }
        assert(entries_match(*d, entries@, base2, no_ms));
        i = i + 1;
    }
    assert(ids.take(d.pin@.len() as int) =~= ids);
    let wires = connectivity.get_wires(harness);
    let ghost ws = deref_wires(wires@);
    let ghost ms_all = connector_wire_matches(*connectivity, *d);
    assert(ws.take(0) =~= Seq::<Wire>::empty());
    assert(connector_matches(*connectivity, *d, ws.take(0)) =~= no_ms);
    let mut wi: usize = 0;
    while wi < wires.len()
        invariant
            wi <= wires@.len(),
            ws == deref_wires(wires@),
            ws == wires_of(connectivity.wires@, connector_harness(*d)),
            ids == pin_ids(*d),
            entries_match(*d, entries@, ids, connector_matches(*connectivity, *d, ws.take(wi as int))),
        decreases wires@.len() - wi,
    {
        let w = wires[wi];
        assert(ws[wi as int] == *w);
        let ghost done = connector_matches(*connectivity, *d, ws.take(wi as int));
        let ghost refs = w.connection@;
        assert(refs.take(0) =~= Seq::<XmlConnectionRef>::empty());
        assert(done + ref_matches(*connectivity, *d, *w, refs.take(0)) =~= done);
        let mut ci: usize = 0;
        while ci < w.connection.len()
            invariant
                ci <= refs.len(),
                refs == w.connection@,
                ids == pin_ids(*d),
                entries_match(*d, entries@, ids, done + ref_matches(*connectivity, *d, *w, refs.take(ci as int))),
            decreases refs.len() - ci,
        {
            let pinref = &w.connection[ci].pinref;
            let ghost prev = ref_matches(*connectivity, *d, *w, refs.take(ci as int));
            assert(refs.take(ci + 1).drop_last() =~= refs.take(ci as int));
            assert(refs.take(ci + 1).last() == w.connection@[ci as int]);
            let hit = match connectivity.get_connection_by_pinref(pinref.as_str()) {
                Some(Connection::Connector(cp)) => str_eq(cp.connector.as_str(), d.name.as_str()),
                _ => false,
            };
            assert(hit == on_connector(*connectivity, *d, pinref@));
            if hit {
                let info = wire_info_exec(w);
                let ghost m = (pinref@, info_view(info));
                add_match(d, &mut entries, pinref.as_str(), info, Ghost(ids), Ghost(done + prev));
                assert((done + prev).push(m) =~= done + prev.push(m));
            }
            ci = ci + 1;
        }
        assert(refs.take(refs.len() as int) =~= refs);
        assert(ws.take(wi + 1).drop_last() =~= ws.take(wi as int));
        assert(ws.take(wi + 1).last() == *w);
        wi = wi + 1;
    }
    assert(ws.take(wires@.len() as int) =~= ws);
    let ghost unsorted = entries@;
    assert(keys_of(unsorted) == pin_keys(*connectivity, *d));
    assert forall|k: int| 0 <= k < entries@.len() implies pin_entry_ok(*d, ms_all, #[trigger] entries@[k]) by {
        assert(infos_view(entries@[k].infos@) == infos_for(ms_all, entries@[k].id@));
    }
    sort_pins(d, &mut entries, Ghost(ms_all));
    proof {
        lemma_isort_map(unsorted, |p: PinWires| p.id@, pin_wires_ord(*d), pin_key_ord(*d));
        assert(unsorted.map_values(|p: PinWires| p.id@) == keys_of(unsorted));
    }
    let ghost sorted = entries@;
    assert(sorted.map_values(|p: PinWires| p.id@) == sorted_pin_keys(*connectivity, *d));
    let ghost all_rows = sorted.map_values(|p: PinWires| pin_rows(*d, ms_all, p.id@));
    assert(all_rows =~= sorted_pin_keys(*connectivity, *d).map_values(
        |k: Seq<char>| pin_rows(*d, connector_wire_matches(*connectivity, *d), k),
    ));
    let mut columns: Vec<ColumnSpec> = Vec::new();
    columns.push(column("pin", "Pin"));
    columns.push(column("wire", "Wire"));
    columns.push(column("description", "Description"));
    columns.push(column("from", "From"));
    columns.push(column("to", "To"));
    assert(column_ids(columns@) =~= connector_table_columns().map_values(
        |p: (Seq<char>, Seq<char>)| p.0,
    ));
    assert(column_displays(columns@) =~= connector_table_columns().map_values(
        |p: (Seq<char>, Seq<char>)| p.1,
    ));
    let mut table = FlexibleTable::new(columns);
    let mut k: usize = 0;
    while k < entries.len()
        invariant
            k <= sorted.len(),
            sorted == entries@,
            all_rows == sorted.map_values(|p: PinWires| pin_rows(*d, ms_all, p.id@)),
            forall|q: int| 0 <= q < sorted.len() ==> pin_entry_ok(*d, ms_all, #[trigger] sorted[q]),
            column_ids(table.columns@) == connector_table_columns().map_values(
                |p: (Seq<char>, Seq<char>)| p.0,
            ),
            column_displays(table.columns@) == connector_table_columns().map_values(
                |p: (Seq<char>, Seq<char>)| p.1,
            ),
            rows_cells(table.rows@) == concat(all_rows.take(k as int)),
            rows_metas(table.rows@) == Seq::new(table.rows@.len(), |i: int| default_meta()),
        decreases sorted.len() - k,
    {
        let e = &entries[k];
        assert(pin_entry_ok(*d, ms_all, sorted[k as int]));
        let ghost base_cells = rows_cells(table.rows@);
        let ghost key_rows = pin_rows(*d, ms_all, e.id@);
        let ghost infos = infos_view(e.infos@);
        if e.infos.len() == 0 {
            let ghost prev_rows = table.rows@;
            push_pin_row(&mut table, &e.name, String::new(), String::new(), String::new(), String::new());
            assert(rows_metas(table.rows@) =~= Seq::new(table.rows@.len(), |i: int| default_meta()));
            assert(key_rows =~= seq![seq![e.name@, Seq::<char>::empty(), Seq::<char>::empty(), Seq::<char>::empty(), Seq::<char>::empty()]]);
            assert(rows_cells(table.rows@) =~= base_cells + key_rows);
        } else {
            let mut j: usize = 0;
            while j < e.infos.len()
                invariant
                    j <= e.infos@.len(),
                    infos == infos_view(e.infos@),
                    infos.len() > 0,
                    key_rows == infos.map_values(
                        |i: WireInfoView| seq![e.name@, i.name, i.description, i.from_label, i.to_label],
                    ),
                    column_ids(table.columns@) == connector_table_columns().map_values(
                        |p: (Seq<char>, Seq<char>)| p.0,
                    ),
                    column_displays(table.columns@) == connector_table_columns().map_values(
                        |p: (Seq<char>, Seq<char>)| p.1,
                    ),
                    rows_cells(table.rows@) == base_cells + key_rows.take(j as int),
                    rows_metas(table.rows@) == Seq::new(table.rows@.len(), |i: int| default_meta()),
                decreases e.infos@.len() - j,
            {
                let info = &e.infos[j];
                assert(infos[j as int] == info_view(*info));
                push_pin_row(
                    &mut table,
                    &e.name,
                    info.name.clone(),
                    info.description.clone(),
                    info.from_label.clone(),
                    info.to_label.clone(),
                );
                assert(rows_metas(table.rows@) =~= Seq::new(table.rows@.len(), |i: int| default_meta()));
                assert(key_rows.take(j + 1) =~= key_rows.take(j as int).push(key_rows[j as int]));
                j = j + 1;
            }
            assert(key_rows.take(e.infos@.len() as int) =~= key_rows);
        }
        assert(all_rows[k as int] == key_rows);
        assert(all_rows.take(k + 1).drop_last() =~= all_rows.take(k as int));
        k = k + 1;
    }
    assert(all_rows.take(sorted.len() as int) =~= all_rows);
    table
}


/// The group of `concat(v)`'s item `r`.
spec fn concat_group<A>(v: Seq<Seq<A>>, r: int) -> int
    decreases v.len(),
{
    if v.len() == 0 {
        0
    } else if r >= concat(v.drop_last()).len() {
        v.len() - 1
    } else {
        concat_group(v.drop_last(), r)
    }
}

/// The position of `concat(v)`'s item `r` within its group.
spec fn concat_offset<A>(v: Seq<Seq<A>>, r: int) -> int
    decreases v.len(),
{
    if v.len() == 0 {
        0
    } else if r >= concat(v.drop_last()).len() {
        r - concat(v.drop_last()).len()
    } else {
        concat_offset(v.drop_last(), r)
    }
}

proof fn lemma_concat_group<A>(v: Seq<Seq<A>>, r: int)
    requires
        0 <= r < concat(v).len(),
    ensures
        0 <= concat_group(v, r) < v.len(),
        0 <= concat_offset(v, r) < v[concat_group(v, r)].len(),
        concat(v)[r] == v[concat_group(v, r)][concat_offset(v, r)],
    decreases v.len(),
{
    let p = v.drop_last();
    if r < concat(p).len() {
        lemma_concat_group(p, r);
        assert(v[concat_group(p, r)] == p[concat_group(p, r)]);
    }
}

proof fn lemma_concat_group_mono<A>(v: Seq<Seq<A>>, i: int, j: int)
    requires
        0 <= i <= j < concat(v).len(),
    ensures
        concat_group(v, i) <= concat_group(v, j),
    decreases v.len(),
{
    let p = v.drop_last();
    if j < concat(p).len() {
        lemma_concat_group_mono(p, i, j);
    } else if i < concat(p).len() {
        lemma_concat_group(p, i);
    }
}

proof fn lemma_concat_has<A>(v: Seq<Seq<A>>, k: int, j: int)
    requires
        0 <= k < v.len(),
        0 <= j < v[k].len(),
    ensures
        exists|r: int| 0 <= r < concat(v).len() && concat(v)[r] == v[k][j],
    decreases v.len(),
{
    let p = v.drop_last();
    if k == v.len() - 1 {
        let r = concat(p).len() + j;
        assert(concat(v)[r] == v[k][j]);
    } else {
        lemma_concat_has(p, k, j);
        let r = choose|r: int| 0 <= r < concat(p).len() && concat(p)[r] == p[k][j];
        assert(concat(v)[r] == concat(p)[r]);
    }
}

/// The comparison of pins by display name orders them: it is antisymmetric
/// both ways and "not after" is transitive.
proof fn lemma_pin_key_ord_total(d: XmlConnector)
    ensures
        antisymmetric(pin_key_ord(d)),
        forall|a: Seq<char>, b: Seq<char>| #[trigger]
            pin_key_ord(d)(a, b) == Order::Greater ==> pin_key_ord(d)(b, a) == Order::Less,
        forall|a: Seq<char>, b: Seq<char>| #[trigger]
            pin_key_ord(d)(a, b) == Order::Less ==> pin_key_ord(d)(b, a) == Order::Greater,
        forall|a: Seq<char>, b: Seq<char>, c: Seq<char>|
            #[trigger] pin_key_ord(d)(a, b) != Order::Greater && #[trigger] pin_key_ord(d)(b, c)
                != Order::Greater ==> pin_key_ord(d)(a, c) != Order::Greater,
{
    let ord = pin_key_ord(d);
    assert forall|a: Seq<char>, b: Seq<char>| #[trigger] ord(a, b) == Order::Greater implies ord(
        b,
        a,
    ) == Order::Less by {
        lemma_lex_order_flip(pin_name(d, a), pin_name(d, b));
    }
    assert forall|a: Seq<char>, b: Seq<char>| #[trigger] ord(a, b) == Order::Less implies ord(
        b,
        a,
    ) == Order::Greater by {
        lemma_lex_order_flip(pin_name(d, a), pin_name(d, b));
    }
    assert forall|a: Seq<char>, b: Seq<char>, c: Seq<char>|
        #[trigger] ord(a, b) != Order::Greater && #[trigger] ord(b, c) != Order::Greater implies ord(
        a,
        c,
    ) != Order::Greater by {
        lemma_lex_order_trans(pin_name(d, a), pin_name(d, b), pin_name(d, c));
    }
}

/// Every pin of the connector has a row in its connection table, showing
/// its display name in the pin column.
pub proof fn lemma_connector_table_lists_every_pin(c: Connectivity, d: XmlConnector, p: int)
    requires
        0 <= p < d.pin@.len(),
    ensures
        exists|r: int|
            0 <= r < connector_table_cells(c, d).len() && connector_table_cells(c, d)[r][0]
                == pin_name(d, d.pin@[p].id@),
{
    broadcast use vstd::seq_lib::group_to_multiset_ensures;

    let id = d.pin@[p].id@;
    let ks = pin_ids(d) + connector_wire_matches(c, d).map_values(
        |m: (Seq<char>, WireInfoView)| m.0,
    );
    assert(ks[p] == id);
    lemma_dedup(ks);
    assert(pin_keys(c, d).contains(id));
    lemma_isort_permutes(pin_keys(c, d), pin_key_ord(d));
    let sk = sorted_pin_keys(c, d);
    assert(pin_keys(c, d).to_multiset().count(id) > 0);
    assert(sk.contains(id));
    let k = choose|k: int| 0 <= k < sk.len() && sk[k] == id;
    let groups = sk.map_values(
        |key: Seq<char>| pin_rows(d, connector_wire_matches(c, d), key),
    );
    assert(connector_table_cells(c, d) == concat(groups));
    assert(groups[k] == pin_rows(d, connector_wire_matches(c, d), id));
    assert(groups[k][0][0] == pin_name(d, id));
    lemma_concat_has(groups, k, 0);
    let r = choose|r: int| 0 <= r < concat(groups).len() && concat(groups)[r] == groups[k][0];
    assert(connector_table_cells(c, d)[r][0] == pin_name(d, id));
}

/// The rows of a connector's connection table are ordered by pin display
/// name: no row's pin comes before that of a row above it.
pub proof fn lemma_connector_table_sorted_by_pin(c: Connectivity, d: XmlConnector, i: int, j: int)
    requires
        0 <= i < j < connector_table_cells(c, d).len(),
    ensures
        lex_order(connector_table_cells(c, d)[j][0], connector_table_cells(c, d)[i][0])
            != Order::Less,
{
    let ord = pin_key_ord(d);
    let sk = sorted_pin_keys(c, d);
    let ms = connector_wire_matches(c, d);
    let groups = sk.map_values(
        |key: Seq<char>| pin_rows(d, connector_wire_matches(c, d), key),
    );
    assert(connector_table_cells(c, d) == concat(groups));
    lemma_pin_key_ord_total(d);
    lemma_isort_locally_sorted(pin_keys(c, d), ord);
    lemma_locally_sorted_sorted(sk, ord);
    lemma_concat_group(groups, i);
    lemma_concat_group(groups, j);
    lemma_concat_group_mono(groups, i, j);
    let gi = concat_group(groups, i);
    let gj = concat_group(groups, j);
    assert(groups[gi] == pin_rows(d, ms, sk[gi]));
    assert(groups[gj] == pin_rows(d, ms, sk[gj]));
    let oi = concat_offset(groups, i);
    let oj = concat_offset(groups, j);
    assert(groups[gi][oi][0] == pin_name(d, sk[gi]));
    assert(groups[gj][oj][0] == pin_name(d, sk[gj]));
    if gi == gj {
        lemma_lex_order_equal(pin_name(d, sk[gj]), pin_name(d, sk[gi]));
    } else {
        assert(ord(sk[gj], sk[gi]) != Order::Less);
    }
}

/// Every entry of a wire list is the entry of one of its wires.
proof fn lemma_wirelist_entries_from_wires(lib: Library, ws: Seq<Wire>)
    ensures
        forall|k: int|
            #![trigger wirelist_of(lib, ws)[k]]
            0 <= k < wirelist_of(lib, ws).len() ==> exists|i: int|
                0 <= i < ws.len() && wirelist_of(lib, ws)[k] == entry_of(lib, #[trigger] ws[i]),
    decreases ws.len(),
{
    if ws.len() > 0 {
        let p = ws.drop_last();
        lemma_wirelist_entries_from_wires(lib, p);
        let prev = wirelist_of(lib, p);
        let wl = wirelist_of(lib, ws);
        assert forall|k: int| #![trigger wl[k]] 0 <= k < wl.len() implies exists|i: int|
            0 <= i < ws.len() && wl[k] == entry_of(lib, #[trigger] ws[i]) by {
            if k < prev.len() {
                assert(wl[k] == prev[k]);
                let i = choose|i: int| 0 <= i < p.len() && prev[k] == entry_of(lib, #[trigger] p[i]);
                assert(ws[i] == p[i]);
            } else {
                assert(wl[k] == entry_of(lib, ws.last()));
                assert(ws[ws.len() - 1] == ws.last());
            }
        }
    }
}

/// Each entry of a harness wire list is built from one of the harness's
/// wires: it carries that wire's name, description, customer part number,
/// material, spec, color code and color description, length, twist partner
/// and processing property, and its left and right ends are the wire's first
/// and second connections resolved against the library (none where the wire
/// has fewer connections).
pub proof fn lemma_wirelist_entry_from_wire(lib: Library, ws: Seq<Wire>, k: int)
    requires
        0 <= k < wirelist_of(lib, ws).len(),
    ensures
        exists|i: int|
            0 <= i < ws.len() && {
                let w = #[trigger] ws[i];
                let e = wirelist_of(lib, ws)[k];
                &&& e.name == w.name@
                &&& e.descr == w.short_descr@
                &&& e.partno == w.customer_partno@
                &&& e.material == w.material@
                &&& e.spec == w.spec@
                &&& e.color_code == w.color@
                &&& e.color_description == or_empty(color_description_of(lib, w.color@))
                &&& e.length == w.length@
                &&& e.twisted_with == opt_string_view(w.twisted_with)
                &&& e.processing == match w.partnumber {
                    Some(p) => or_empty(wire_property_of(lib, p@, "PROCESSING"@)),
                    None => Seq::empty(),
                }
                &&& e.left == if w.connections@.len() > 0 {
                    Some(
                        wire_end_of(
                            lib,
                            w.connections@[0].connection,
                            opt_string_view(w.connections@[0].termination),
                        ),
                    )
                } else {
                    None
                }
                &&& e.right == if w.connections@.len() > 1 {
                    Some(
                        wire_end_of(
                            lib,
                            w.connections@[1].connection,
                            opt_string_view(w.connections@[1].termination),
                        ),
                    )
                } else {
                    None
                }
            },
{
    lemma_wirelist_entries_from_wires(lib, ws);
    let i = choose|i: int| 0 <= i < ws.len() && wirelist_of(lib, ws)[k] == entry_of(lib, #[trigger] ws[i]);
    assert(wirelist_of(lib, ws)[k] == entry_of(lib, ws[i]));
}

/// The device and pin a connector, device or ground-device end names.
pub open spec fn end_place(c: Connection) -> (Seq<char>, Seq<char>) {
    match c {
        Connection::Connector(cp) => (cp.connector@, cp.pin@),
        Connection::Device(dp) => (dp.device@, dp.pin@),
        Connection::GroundDevice(dp) => (dp.device@, dp.pin@),
        Connection::Splice(sp) => (sp.splice@, sp.pin@),
    }
}

/// An end on a connector (not a ring terminal), a device or a ground device
/// shows that device and pin. With a termination it carries the library's
/// customer part number of the termination, the terminal's short name and
/// its strip length (`0` without a terminal part); the one exception is a
/// device termination that trims to `^` (two wires on one terminal), which
/// is kept as `^` with no name and strip `0`. Without a termination the end
/// shows `TODO` as part number, no name and strip `0`.
pub proof fn lemma_terminated_wire_end(lib: Library, c: Connection, t: Option<Seq<char>>)
    requires
        match c {
            Connection::Connector(cp) => !cp.is_ring,
            Connection::Splice(_) => false,
            _ => true,
        },
    ensures
        wire_end_of(lib, c, t).device == end_place(c).0,
        wire_end_of(lib, c, t).pin == end_place(c).1,
        match t {
            None => {
                &&& wire_end_of(lib, c, t).termination_partnumber == "TODO"@
                &&& wire_end_of(lib, c, t).termination_name == Seq::<char>::empty()
                &&& wire_end_of(lib, c, t).strip == "0"@
            },
            Some(tt) => if c is Device && trim(tt) == seq!['^'] {
                &&& wire_end_of(lib, c, t).termination_partnumber == "^"@
                &&& wire_end_of(lib, c, t).termination_name == Seq::<char>::empty()
                &&& wire_end_of(lib, c, t).strip == "0"@
            } else {
                &&& wire_end_of(lib, c, t).termination_partnumber == or_empty(
                    customer_partno_of(lib, tt),
                )
                &&& wire_end_of(lib, c, t).termination_name == or_empty(
                    terminal_short_name(terminal_of(lib, tt)),
                )
                &&& wire_end_of(lib, c, t).strip == match terminal_of(lib, tt) {
                    Some(tp) => tp.striplength@,
                    None => "0"@,
                }
            },
        },
{
}

/// A ring-terminal end shows the device (or ground device) the ring is mated
/// to, or no device when it is mated to neither, and carries the ring itself:
/// the connector's customer part number, and the short name and strip length
/// of the library terminal of the connector's part number; the termination
/// of the connection plays no part.
pub proof fn lemma_ring_wire_end(lib: Library, cp: ConnectorPin, t: Option<Seq<char>>)
    requires
        cp.is_ring,
    ensures
        wire_end_of(lib, Connection::Connector(cp), t).device == match cp.ring_connection {
            Some(RingMate::Device(dp)) => dp.device@,
            Some(RingMate::GroundDevice(dp)) => dp.device@,
            _ => Seq::empty(),
        },
        wire_end_of(lib, Connection::Connector(cp), t).pin == match cp.ring_connection {
            Some(RingMate::Device(dp)) => dp.pin@,
            Some(RingMate::GroundDevice(dp)) => dp.pin@,
            _ => Seq::empty(),
        },
        wire_end_of(lib, Connection::Connector(cp), t).termination_partnumber == cp.customer_partno@,
        wire_end_of(lib, Connection::Connector(cp), t).termination_name == or_empty(
            terminal_short_name(terminal_of(lib, cp.partno@)),
        ),
        wire_end_of(lib, Connection::Connector(cp), t).strip == match terminal_of(lib, cp.partno@) {
            Some(tp) => tp.striplength@,
            None => "0"@,
        },
        wire_end_of(lib, Connection::Connector(cp), t) == wire_end_of(
            lib,
            Connection::Connector(cp),
            None,
        ),
{
}

/// A splice end shows the splice and its pin. With a library part number it
/// carries the customer part number of that part (the part number itself
/// where there is none), the splice part's short name and strip length (`0`
/// without a splice part); without one it carries nothing and strip `0`. The
/// termination of the connection plays no part.
pub proof fn lemma_splice_wire_end(lib: Library, sp: SplicePin, t: Option<Seq<char>>)
    ensures
        wire_end_of(lib, Connection::Splice(sp), t).device == sp.splice@,
        wire_end_of(lib, Connection::Splice(sp), t).pin == sp.pin@,
        wire_end_of(lib, Connection::Splice(sp), t) == wire_end_of(lib, Connection::Splice(sp), None),
        match sp.partno {
            Some(lp) => {
                &&& wire_end_of(lib, Connection::Splice(sp), t).termination_partnumber == match customer_partno_of(lib, lp@) {
                    Some(cpn) => cpn,
                    None => lp@,
                }
                &&& wire_end_of(lib, Connection::Splice(sp), t).termination_name == or_empty(
                    splice_short_name(splice_of(lib, lp@)),
                )
                &&& wire_end_of(lib, Connection::Splice(sp), t).strip == match splice_of(lib, lp@) {
                    Some(x) => x.striplength@,
                    None => "0"@,
                }
            },
            None => {
                &&& wire_end_of(lib, Connection::Splice(sp), t).termination_partnumber == Seq::<char>::empty()
                &&& wire_end_of(lib, Connection::Splice(sp), t).termination_name == Seq::<char>::empty()
                &&& wire_end_of(lib, Connection::Splice(sp), t).strip == "0"@
            },
        },
{
}

/// Every row of a wire list table shows one wire of its groups: its name
/// (with the twist partner), texts, color, length, twist and processing,
/// the left end's device, pin, strip length and termination in the from
/// columns and the right end's in the to columns (empty texts and strip `0`
/// for a missing end), and the `device-pin` labels of both ends.
pub proof fn lemma_wire_table_row_ends(groups: Seq<Vec<WireEntry>>, q: int)
    requires
        0 <= q < concat(groups.map_values(|g: Vec<WireEntry>| group_cells(g@))).len(),
    ensures
        wire_list_table_columns()[0].0 == wire_list_columns::WIRE_NAME@,
        wire_list_table_columns()[7].0 == wire_list_columns::WIRE_FROM_PINLIST@,
        wire_list_table_columns()[10].0 == wire_list_columns::FROM_TERM_PARTNO@,
        wire_list_table_columns()[15].0 == wire_list_columns::TO_TERM_PARTNO@,
        wire_list_table_columns()[17].0 == wire_list_columns::MODIFIED_LENGTH@,
        wire_list_table_columns()[18].0 == wire_list_columns::TWIST_WIDTH@,
        wire_list_table_columns()[19].0 == wire_list_columns::PROCESSING@,
        wire_list_table_columns()[20].0 == wire_list_columns::FROM_LABEL@,
        wire_list_table_columns()[21].0 == wire_list_columns::TO_LABEL@,
        wire_list_table_columns()[8].0 == wire_list_columns::WIRE_FROM_CAVITY@,
        wire_list_table_columns()[9].0 == wire_list_columns::WIRE_TERMINAL_STRIP_LEN1@,
        wire_list_table_columns()[12].0 == wire_list_columns::WIRE_TO_PINLIST@,
        wire_list_table_columns()[13].0 == wire_list_columns::WIRE_TO_CAVITY@,
        wire_list_table_columns()[14].0 == wire_list_columns::WIRE_TERMINAL_STRIP_LEN2@,
        exists|gi: int, w: WireEntry|
            0 <= gi < groups.len() && #[trigger] groups[gi]@.contains(w) && {
                let row = concat(groups.map_values(|g: Vec<WireEntry>| group_cells(g@)))[q];
                &&& row.len() == wire_list_table_columns().len()
                &&& row[7] == match w.left {
                    Some(x) => x.device@,
                    None => Seq::empty(),
                }
                &&& row[8] == match w.left {
                    Some(x) => x.pin@,
                    None => Seq::empty(),
                }
                &&& row[9] == match w.left {
                    Some(x) => x.strip@,
                    None => "0"@,
                }
                &&& row[12] == match w.right {
                    Some(x) => x.device@,
                    None => Seq::empty(),
                }
                &&& row[13] == match w.right {
                    Some(x) => x.pin@,
                    None => Seq::empty(),
                }
                &&& row[14] == match w.right {
                    Some(x) => x.strip@,
                    None => "0"@,
                }
                &&& row[0] == match w.twisted_with {
                    Some(x) => w.name@ + " (⤫ "@ + x@ + ")"@,
                    None => w.name@,
                }
                &&& row[1] == w.descr@
                &&& row[2] == w.partno@
                &&& row[3] == w.material@
                &&& row[4] == w.spec@
                &&& row[5] == w.color_code@
                &&& row[6] == w.color_description@
                &&& row[10] == match w.left {
                    Some(x) => x.termination_partnumber@,
                    None => Seq::empty(),
                }
                &&& row[11] == match w.left {
                    Some(x) => x.termination_name@,
                    None => Seq::empty(),
                }
                &&& row[15] == match w.right {
                    Some(x) => x.termination_partnumber@,
                    None => Seq::empty(),
                }
                &&& row[16] == match w.right {
                    Some(x) => x.termination_name@,
                    None => Seq::empty(),
                }
                &&& row[17] == w.length@
                &&& row[18] == match w.twisted_with {
                    Some(x) => x@,
                    None => Seq::empty(),
                }
                &&& row[19] == w.processing@
                &&& row[20] == row[7] + seq!['-'] + row[8]
                &&& row[21] == row[12] + seq!['-'] + row[13]
            },
{
    broadcast use vstd::seq_lib::group_to_multiset_ensures;

    let all = groups.map_values(|g: Vec<WireEntry>| group_cells(g@));
    lemma_concat_group(all, q);
    let gi = concat_group(all, q);
    let o = concat_offset(all, q);
    let gs = groups[gi]@;
    let sorted = isort(gs, wire_ord());
    lemma_isort_permutes(gs, wire_ord());
    assert(all[gi] == sorted.map_values(|w: WireEntry| wire_row(w@)));
    let w = sorted[o];
    assert(sorted.contains(w));
    assert(sorted.to_multiset().count(w) > 0);
    assert(gs.contains(w));
    let row = concat(all)[q];
    assert(row == wire_row(w@));
}

/// Every reference that the matches of `ws` record for connector `d` is on
/// that connector.
proof fn lemma_matches_on_connector(c: Connectivity, d: XmlConnector, ws: Seq<Wire>)
    ensures
        forall|j: int|
            0 <= j < connector_matches(c, d, ws).len() ==> on_connector(
                c,
                d,
                (#[trigger] connector_matches(c, d, ws)[j]).0,
            ),
    decreases ws.len(),
{
    if ws.len() > 0 {
        let p = ws.drop_last();
        lemma_matches_on_connector(c, d, p);
        lemma_ref_matches_on_connector(c, d, ws.last(), ws.last().connection@);
        let a = connector_matches(c, d, p);
        let b = ref_matches(c, d, ws.last(), ws.last().connection@);
        assert(connector_matches(c, d, ws) == a + b);
        assert forall|j: int| 0 <= j < (a + b).len() implies on_connector(c, d, (#[trigger] (a + b)[j]).0) by {
            if j < a.len() {
                assert((a + b)[j] == a[j]);
            } else {
                assert((a + b)[j] == b[j - a.len()]);
            }
        }
    }
}

proof fn lemma_ref_matches_on_connector(c: Connectivity, d: XmlConnector, w: Wire, refs: Seq<XmlConnectionRef>)
    ensures
        forall|j: int|
            0 <= j < ref_matches(c, d, w, refs).len() ==> on_connector(
                c,
                d,
                (#[trigger] ref_matches(c, d, w, refs)[j]).0,
            ),
    decreases refs.len(),
{
    if refs.len() > 0 {
        let p = refs.drop_last();
        lemma_ref_matches_on_connector(c, d, w, p);
        let prev = ref_matches(c, d, w, p);
        let cur = ref_matches(c, d, w, refs);
        assert forall|j: int| 0 <= j < cur.len() implies on_connector(c, d, (#[trigger] cur[j]).0) by {
            if j < prev.len() {
                assert(cur[j] == prev[j]);
            }
        }
    }
}

/// Every row of a connector's connection table is a row of one of the
/// connector's own pins, or of a pin reference of a harness wire that
/// resolves to a pin of a connector with the connector's name: a wire's end
/// on another connector adds no row.
pub proof fn lemma_connector_table_rows_on_connector(c: Connectivity, d: XmlConnector, r: int)
    requires
        0 <= r < connector_table_cells(c, d).len(),
    ensures
        exists|k: Seq<char>|
            (pin_ids(d).contains(k) || (connection_of(c, k) matches Some(
                Connection::Connector(cp),
            ) && cp.connector@ == d.name@)) && connector_table_cells(c, d)[r][0] == #[trigger] pin_name(
                d,
                k,
            ),
{
    broadcast use vstd::seq_lib::group_to_multiset_ensures;

    let sk = sorted_pin_keys(c, d);
    let groups = sk.map_values(
        |key: Seq<char>| pin_rows(d, connector_wire_matches(c, d), key),
    );
    assert(connector_table_cells(c, d) == concat(groups));
    lemma_concat_group(groups, r);
    let g = concat_group(groups, r);
    let o = concat_offset(groups, r);
    let k = sk[g];
    assert(groups[g] == pin_rows(d, connector_wire_matches(c, d), k));
    assert(groups[g][o][0] == pin_name(d, k));
    lemma_isort_permutes(pin_keys(c, d), pin_key_ord(d));
    assert(sk.contains(k));
    assert(sk.to_multiset().count(k) > 0);
    assert(pin_keys(c, d).contains(k));
    let ms = connector_wire_matches(c, d);
    let mk = ms.map_values(|m: (Seq<char>, WireInfoView)| m.0);
    let ks = pin_ids(d) + mk;
    lemma_dedup(ks);
    assert(ks.contains(k));
    let j = choose|j: int| 0 <= j < ks.len() && ks[j] == k;
    if j < pin_ids(d).len() {
        assert(pin_ids(d)[j] == k);
        assert(pin_ids(d).contains(k));
    } else {
        let jj = j - pin_ids(d).len();
        assert(mk[jj] == k);
        assert(ms[jj].0 == k);
        lemma_matches_on_connector(c, d, wires_of(c.wires@, connector_harness(d)));
        assert(on_connector(c, d, ms[jj].0));
    }
}

/// The `device-pin` label of connection `i` of wire `w`, or empty.
pub open spec fn end_label(w: Wire, i: int) -> Seq<char> {
    if 0 <= i < w.connections@.len() {
        end_place(w.connections@[i].connection).0 + seq!['-'] + end_place(
            w.connections@[i].connection,
        ).1
    } else {
        Seq::empty()
    }
}

proof fn lemma_ref_matches_sound(c: Connectivity, d: XmlConnector, w: Wire, refs: Seq<XmlConnectionRef>)
    ensures
        forall|j: int|
            #![trigger ref_matches(c, d, w, refs)[j]]
            0 <= j < ref_matches(c, d, w, refs).len() ==> ref_matches(c, d, w, refs)[j].1 == wire_info(w)
                && exists|x: int|
                0 <= x < refs.len() && (#[trigger] refs[x]).pinref@ == ref_matches(c, d, w, refs)[j].0,
    decreases refs.len(),
{
    if refs.len() > 0 {
        let p = refs.drop_last();
        lemma_ref_matches_sound(c, d, w, p);
        let prev = ref_matches(c, d, w, p);
        let cur = ref_matches(c, d, w, refs);
        assert forall|j: int| #![trigger cur[j]] 0 <= j < cur.len() implies cur[j].1 == wire_info(w)
            && exists|x: int| 0 <= x < refs.len() && (#[trigger] refs[x]).pinref@ == cur[j].0 by {
            if j < prev.len() {
                assert(cur[j] == prev[j]);
                let x = choose|x: int| 0 <= x < p.len() && (#[trigger] p[x]).pinref@ == prev[j].0;
                assert(refs[x] == p[x]);
            } else {
                assert(refs[refs.len() - 1] == refs.last());
            }
        }
    }
}

proof fn lemma_matches_sound(c: Connectivity, d: XmlConnector, ws: Seq<Wire>)
    ensures
        forall|j: int|
            #![trigger connector_matches(c, d, ws)[j]]
            0 <= j < connector_matches(c, d, ws).len() ==> exists|i: int, x: int|
                0 <= i < ws.len() && 0 <= x < ws[i].connection@.len() && (#[trigger] ws[i].connection@[x]).pinref@
                    == connector_matches(c, d, ws)[j].0 && connector_matches(c, d, ws)[j].1
                    == wire_info(ws[i]),
    decreases ws.len(),
{
    if ws.len() > 0 {
        let p = ws.drop_last();
        let w = ws.last();
        lemma_matches_sound(c, d, p);
        lemma_ref_matches_sound(c, d, w, w.connection@);
        let a = connector_matches(c, d, p);
        let b = ref_matches(c, d, w, w.connection@);
        let cm = connector_matches(c, d, ws);
        assert(cm == a + b);
        assert forall|j: int| #![trigger cm[j]] 0 <= j < cm.len() implies exists|i: int, x: int|
            0 <= i < ws.len() && 0 <= x < ws[i].connection@.len() && (#[trigger] ws[i].connection@[x]).pinref@
                == cm[j].0 && cm[j].1 == wire_info(ws[i]) by {
            if j < a.len() {
                assert(cm[j] == a[j]);
                let (i, x) = choose|i: int, x: int|
                    0 <= i < p.len() && 0 <= x < p[i].connection@.len() && (#[trigger] p[i].connection@[x]).pinref@
                        == a[j].0 && a[j].1 == wire_info(p[i]);
                assert(ws[i] == p[i]);
                assert(ws[i].connection@[x] == p[i].connection@[x]);
            } else {
                let jb = j - a.len();
                assert(cm[j] == b[jb]);
                let x = choose|x: int|
                    0 <= x < w.connection@.len() && (#[trigger] w.connection@[x]).pinref@ == b[jb].0;
                let i = ws.len() - 1;
                assert(ws[i] == w);
                assert(ws[i].connection@[x] == w.connection@[x]);
            }
        }
    }
}

proof fn lemma_ref_matches_complete(c: Connectivity, d: XmlConnector, w: Wire, refs: Seq<XmlConnectionRef>, x: int)
    requires
        0 <= x < refs.len(),
        on_connector(c, d, refs[x].pinref@),
    ensures
        exists|j: int|
            0 <= j < ref_matches(c, d, w, refs).len() && (#[trigger] ref_matches(c, d, w, refs)[j]).0
                == refs[x].pinref@,
    decreases refs.len(),
{
    let p = refs.drop_last();
    let cur = ref_matches(c, d, w, refs);
    if x < refs.len() - 1 {
        assert(p[x] == refs[x]);
        lemma_ref_matches_complete(c, d, w, p, x);
        let j = choose|j: int|
            0 <= j < ref_matches(c, d, w, p).len() && (#[trigger] ref_matches(c, d, w, p)[j]).0
                == p[x].pinref@;
        assert(cur[j] == ref_matches(c, d, w, p)[j]);
    } else {
        let j = ref_matches(c, d, w, p).len() as int;
        assert(cur[j].0 == refs[x].pinref@);
    }
}

proof fn lemma_matches_complete(c: Connectivity, d: XmlConnector, ws: Seq<Wire>, i: int, x: int)
    requires
        0 <= i < ws.len(),
        0 <= x < ws[i].connection@.len(),
        on_connector(c, d, ws[i].connection@[x].pinref@),
    ensures
        exists|j: int|
            0 <= j < connector_matches(c, d, ws).len() && (#[trigger] connector_matches(c, d, ws)[j]).0
                == ws[i].connection@[x].pinref@,
    decreases ws.len(),
{
    let p = ws.drop_last();
    let w = ws.last();
    let a = connector_matches(c, d, p);
    let b = ref_matches(c, d, w, w.connection@);
    let cm = connector_matches(c, d, ws);
    assert(cm == a + b);
    if i < ws.len() - 1 {
        assert(p[i] == ws[i]);
        lemma_matches_complete(c, d, p, i, x);
        let j = choose|j: int| 0 <= j < a.len() && (#[trigger] a[j]).0 == p[i].connection@[x].pinref@;
        assert(cm[j] == a[j]);
    } else {
        assert(ws[i] == w);
        lemma_ref_matches_complete(c, d, w, w.connection@, x);
        let jb = choose|jb: int| 0 <= jb < b.len() && (#[trigger] b[jb]).0 == w.connection@[x].pinref@;
        assert(cm[a.len() + jb] == b[jb]);
    }
}

proof fn lemma_infos_for_from(ms: Seq<(Seq<char>, WireInfoView)>, k: Seq<char>, y: int)
    requires
        0 <= y < infos_for(ms, k).len(),
    ensures
        exists|j: int| 0 <= j < ms.len() && (#[trigger] ms[j]).0 == k && ms[j].1 == infos_for(ms, k)[y],
    decreases ms.len(),
{
    let p = ms.drop_last();
    if y < infos_for(p, k).len() {
        assert(infos_for(ms, k)[y] == infos_for(p, k)[y]);
        lemma_infos_for_from(p, k, y);
        let j = choose|j: int| 0 <= j < p.len() && (#[trigger] p[j]).0 == k && p[j].1 == infos_for(p, k)[y];
        assert(ms[j] == p[j]);
    } else {
        assert(ms.last().0 == k);
        assert(infos_for(ms, k) == infos_for(p, k).push(ms.last().1));
        assert(ms[ms.len() - 1] == ms.last());
    }
}

proof fn lemma_infos_for_nonempty(ms: Seq<(Seq<char>, WireInfoView)>, k: Seq<char>, j: int)
    requires
        0 <= j < ms.len(),
        ms[j].0 == k,
    ensures
        infos_for(ms, k).len() > 0,
    decreases ms.len(),
{
    if j < ms.len() - 1 {
        assert(ms.drop_last()[j] == ms[j]);
        lemma_infos_for_nonempty(ms.drop_last(), k, j);
    }
}

/// Each row of a connector's connection table is, for a pin of the
/// connector's table, either a wire of the connector's harness that has a
/// pin reference to that pin (its name, description and the `device-pin`
/// labels of its first two connections), or the pin's single empty row,
/// which it has only when no wire of the harness reaches the pin on this
/// connector.
pub proof fn lemma_connector_table_wire_rows(c: Connectivity, d: XmlConnector, r: int)
    requires
        0 <= r < connector_table_cells(c, d).len(),
    ensures
        exists|k: Seq<char>|
            #![trigger pin_name(d, k)]
            {
                let row = connector_table_cells(c, d)[r];
                let hw = wires_of(c.wires@, or_empty(opt_string_view(d.harness)));
                let on_this = connection_of(c, k) matches Some(Connection::Connector(cp))
                    && cp.connector@ == d.name@;
                &&& pin_ids(d).contains(k) || on_this
                &&& row[0] == pin_name(d, k)
                &&& {
                    ||| (row == seq![
                        pin_name(d, k),
                        Seq::<char>::empty(),
                        Seq::<char>::empty(),
                        Seq::<char>::empty(),
                        Seq::<char>::empty(),
                    ] && (forall|i: int, x: int|
                        0 <= i < hw.len() && 0 <= x < hw[i].connection@.len()
                            && (#[trigger] hw[i].connection@[x]).pinref@ == k ==> !on_this))
                    ||| exists|i: int, x: int|
                        0 <= i < hw.len() && 0 <= x < hw[i].connection@.len()
                            && (#[trigger] hw[i].connection@[x]).pinref@ == k && row == seq![
                            pin_name(d, k),
                            hw[i].name@,
                            hw[i].short_descr@,
                            end_label(hw[i], 0),
                            end_label(hw[i], 1),
                        ]
                }
            },
{
    broadcast use vstd::seq_lib::group_to_multiset_ensures;

    let sk = sorted_pin_keys(c, d);
    let ms = connector_wire_matches(c, d);
    let hw = wires_of(c.wires@, or_empty(opt_string_view(d.harness)));
    assert(hw == wires_of(c.wires@, connector_harness(d)));
    let groups = sk.map_values(|key: Seq<char>| pin_rows(d, connector_wire_matches(c, d), key));
    assert(connector_table_cells(c, d) == concat(groups));
    lemma_concat_group(groups, r);
    let g = concat_group(groups, r);
    let o = concat_offset(groups, r);
    let k = sk[g];
    assert(groups[g] == pin_rows(d, ms, k));
    let row = connector_table_cells(c, d)[r];
    assert(row == pin_rows(d, ms, k)[o]);
    // the key belongs to the connector
    lemma_isort_permutes(pin_keys(c, d), pin_key_ord(d));
    assert(sk.contains(k));
    assert(sk.to_multiset().count(k) > 0);
    assert(pin_keys(c, d).contains(k));
    let mk = ms.map_values(|m: (Seq<char>, WireInfoView)| m.0);
    let ks = pin_ids(d) + mk;
    lemma_dedup(ks);
    assert(ks.contains(k));
    let jk = choose|jk: int| 0 <= jk < ks.len() && ks[jk] == k;
    lemma_matches_on_connector(c, d, hw);
    if jk >= pin_ids(d).len() {
        let jj = jk - pin_ids(d).len();
        assert(mk[jj] == k);
        assert(on_connector(c, d, ms[jj].0));
    } else {
        assert(pin_ids(d)[jk] == k);
    }
    let on_this = connection_of(c, k) matches Some(Connection::Connector(cp)) && cp.connector@
        == d.name@;
    assert(pin_ids(d).contains(k) || on_this);
    let infos = infos_for(ms, k);
    if infos.len() == 0 {
        assert forall|i: int, x: int|
            0 <= i < hw.len() && 0 <= x < hw[i].connection@.len() && (#[trigger] hw[i].connection@[x]).pinref@
                == k implies !on_this by {
            if on_this {
                assert(on_connector(c, d, hw[i].connection@[x].pinref@));
                lemma_matches_complete(c, d, hw, i, x);
                let j = choose|j: int| 0 <= j < ms.len() && (#[trigger] ms[j]).0 == hw[i].connection@[x].pinref@;
                lemma_infos_for_nonempty(ms, k, j);
            }
        }
        assert(row == seq![
            pin_name(d, k),
            Seq::<char>::empty(),
            Seq::<char>::empty(),
            Seq::<char>::empty(),
            Seq::<char>::empty(),
        ]);
    } else {
        let info = infos[o];
        assert(row == seq![pin_name(d, k), info.name, info.description, info.from_label, info.to_label]);
        lemma_infos_for_from(ms, k, o);
        let j = choose|j: int| 0 <= j < ms.len() && (#[trigger] ms[j]).0 == k && ms[j].1 == infos[o];
        lemma_matches_sound(c, d, hw);
        let (i, x) = choose|i: int, x: int|
            0 <= i < hw.len() && 0 <= x < hw[i].connection@.len() && (#[trigger] hw[i].connection@[x]).pinref@
                == ms[j].0 && ms[j].1 == wire_info(hw[i]);
        let w = hw[i];
        assert(connection_label_at(w, 0) == end_label(w, 0));
        assert(connection_label_at(w, 1) == end_label(w, 1));
        assert(row == seq![pin_name(d, k), w.name@, w.short_descr@, end_label(w, 0), end_label(w, 1)]);
    }
}

} // verus!
