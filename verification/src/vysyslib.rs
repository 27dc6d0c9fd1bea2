//! The parts of the VeSys component library that the wire list logic looks
//! up, as plain values, with first-match lookups.

use vstd::prelude::*;
use crate::text::{opt_string_view, str_eq};

verus! {

/// A customer part number for a library part number.
#[derive(Clone, Debug)]
pub struct CustomerPart {
    pub partnumber: String,
    pub customer_partnumber: String,
}

/// A terminal part: its short name and strip length (as text, in the form
/// `f32::to_string` writes the length: `0.25`, `0`).
#[derive(Clone, Debug)]
pub struct TerminalPart {
    pub partnumber: String,
    pub short_name: Option<String>,
    pub striplength: String,
}

/// A splice part: its short name and strip length (as text, in the form
/// `f32::to_string` writes it).
#[derive(Clone, Debug)]
pub struct SplicePart {
    pub partnumber: String,
    pub short_name: Option<String>,
    pub striplength: String,
}

/// A named property of a wire part.
#[derive(Clone, Debug)]
pub struct WireProperty {
    pub partnumber: String,
    pub name: String,
    pub value: String,
}

/// The description of a wire color code.
#[derive(Clone, Debug)]
pub struct ColorDescription {
    pub code: String,
    pub description: String,
}

/// The component library.
#[derive(Clone, Debug)]
pub struct Library {
    pub customer_parts: Vec<CustomerPart>,
    pub terminals: Vec<TerminalPart>,
    pub splices: Vec<SplicePart>,
    pub wire_properties: Vec<WireProperty>,
    pub colors: Vec<ColorDescription>,
}

/// The first item of `s` that `f` accepts.
pub open spec fn first_match<A>(s: Seq<A>, f: spec_fn(A) -> bool) -> Option<A>
    decreases s.len(),
{
    if s.len() == 0 {
        None
    } else if f(s[0]) {
        Some(s[0])
    } else {
        first_match(s.drop_first(), f)
    }
}

/// The customer part number of library part `p`.
pub open spec fn customer_partno_of(lib: Library, p: Seq<char>) -> Option<Seq<char>> {
    match first_match(lib.customer_parts@, |c: CustomerPart| c.partnumber@ == p) {
        Some(c) => Some(c.customer_partnumber@),
        None => None,
    }
}

/// The terminal part numbered `p`.
pub open spec fn terminal_of(lib: Library, p: Seq<char>) -> Option<TerminalPart> {
    first_match(lib.terminals@, |t: TerminalPart| t.partnumber@ == p)
}

/// The splice part numbered `p`.
pub open spec fn splice_of(lib: Library, p: Seq<char>) -> Option<SplicePart> {
    first_match(lib.splices@, |t: SplicePart| t.partnumber@ == p)
}

/// The short name of a terminal, if there is a terminal with one.
pub open spec fn terminal_short_name(t: Option<TerminalPart>) -> Option<Seq<char>> {
    match t {
        Some(t) => opt_string_view(t.short_name),
        None => None,
    }
}

/// The short name of a splice, if there is a splice with one.
pub open spec fn splice_short_name(t: Option<SplicePart>) -> Option<Seq<char>> {
    match t {
        Some(t) => opt_string_view(t.short_name),
        None => None,
    }
}

/// Property `name` of wire part `p`.
pub open spec fn wire_property_of(lib: Library, p: Seq<char>, name: Seq<char>) -> Option<Seq<char>> {
    match first_match(
        lib.wire_properties@,
        |w: WireProperty| w.partnumber@ == p && w.name@ == name,
    ) {
        Some(w) => Some(w.value@),
        None => None,
    }
}

/// The description of color code `code`.
pub open spec fn color_description_of(lib: Library, code: Seq<char>) -> Option<Seq<char>> {
    match first_match(lib.colors@, |c: ColorDescription| c.code@ == code) {
        Some(c) => Some(c.description@),
        None => None,
    }
}

impl Library {
    pub fn lookup_customer_partnumber(&self, partno: &str) -> (r: Option<&str>)
        ensures
            match r {
                Some(s) => customer_partno_of(*self, partno@) == Some(s@),
                None => customer_partno_of(*self, partno@) is None,
            },
    {
        let ghost f = |c: CustomerPart| c.partnumber@ == partno@;
        let ghost s = self.customer_parts@;
        let mut i: usize = 0;
        assert(s.skip(0) =~= s);
        while i < self.customer_parts.len()
            invariant
                i <= s.len(),
                s == self.customer_parts@,
                f == (|c: CustomerPart| c.partnumber@ == partno@),
                first_match(s, f) == first_match(s.skip(i as int), f),
            decreases s.len() - i,
        {
            assert(s.skip(i as int)[0] == s[i as int]);
            if str_eq(self.customer_parts[i].partnumber.as_str(), partno) {
                return Some(self.customer_parts[i].customer_partnumber.as_str());
            }
            assert(s.skip(i as int).drop_first() =~= s.skip(i + 1));
            i = i + 1;
        }
        None
    }

    pub fn lookup_terminal_part(&self, partno: &str) -> (r: Option<&TerminalPart>)
        ensures
            match r {
                Some(t) => terminal_of(*self, partno@) == Some(*t),
                None => terminal_of(*self, partno@) is None,
            },
    {
        let ghost f = |t: TerminalPart| t.partnumber@ == partno@;
        let ghost s = self.terminals@;
        let mut i: usize = 0;
        assert(s.skip(0) =~= s);
        while i < self.terminals.len()
            invariant
                i <= s.len(),
                s == self.terminals@,
                f == (|t: TerminalPart| t.partnumber@ == partno@),
                first_match(s, f) == first_match(s.skip(i as int), f),
            decreases s.len() - i,
        {
            assert(s.skip(i as int)[0] == s[i as int]);
            if str_eq(self.terminals[i].partnumber.as_str(), partno) {
                return Some(&self.terminals[i]);
            }
            assert(s.skip(i as int).drop_first() =~= s.skip(i + 1));
            i = i + 1;
        }
        None
    }

    pub fn lookup_splice_part(&self, partno: &str) -> (r: Option<&SplicePart>)
        ensures
            match r {
                Some(t) => splice_of(*self, partno@) == Some(*t),
                None => splice_of(*self, partno@) is None,
            },
    {
        let ghost f = |t: SplicePart| t.partnumber@ == partno@;
        let ghost s = self.splices@;
        let mut i: usize = 0;
        assert(s.skip(0) =~= s);
        while i < self.splices.len()
            invariant
                i <= s.len(),
                s == self.splices@,
                f == (|t: SplicePart| t.partnumber@ == partno@),
                first_match(s, f) == first_match(s.skip(i as int), f),
            decreases s.len() - i,
        {
            assert(s.skip(i as int)[0] == s[i as int]);
            if str_eq(self.splices[i].partnumber.as_str(), partno) {
                return Some(&self.splices[i]);
            }
            assert(s.skip(i as int).drop_first() =~= s.skip(i + 1));
            i = i + 1;
        }
        None
    }

    pub fn lookup_terminal_short_name<'b>(&self, terminal: Option<&'b TerminalPart>) -> (r: Option<
        &'b str,
    >)
        ensures
            crate::text::opt_str_view(r) == terminal_short_name(
                match terminal {
                    Some(t) => Some(*t),
                    None => None,
                },
            ),
    {
        match terminal {
            Some(t) => match &t.short_name {
                Some(n) => Some(n.as_str()),
                None => None,
            },
            None => None,
        }
    }

    pub fn lookup_splice_short_name<'b>(&self, splice: Option<&'b SplicePart>) -> (r: Option<&'b str>)
        ensures
            crate::text::opt_str_view(r) == splice_short_name(
                match splice {
                    Some(t) => Some(*t),
                    None => None,
                },
            ),
    {
        match splice {
            Some(t) => match &t.short_name {
                Some(n) => Some(n.as_str()),
                None => None,
            },
            None => None,
        }
    }

    pub fn lookup_wire_property(&self, partno: &str, name: &str) -> (r: Option<&str>)
        ensures
            match r {
                Some(s) => wire_property_of(*self, partno@, name@) == Some(s@),
                None => wire_property_of(*self, partno@, name@) is None,
            },
    {
        let ghost f = |w: WireProperty| w.partnumber@ == partno@ && w.name@ == name@;
        let ghost s = self.wire_properties@;
        let mut i: usize = 0;
        assert(s.skip(0) =~= s);
        while i < self.wire_properties.len()
            invariant
                i <= s.len(),
                s == self.wire_properties@,
                f == (|w: WireProperty| w.partnumber@ == partno@ && w.name@ == name@),
                first_match(s, f) == first_match(s.skip(i as int), f),
            decreases s.len() - i,
        {
            assert(s.skip(i as int)[0] == s[i as int]);
            if str_eq(self.wire_properties[i].partnumber.as_str(), partno) && str_eq(
                self.wire_properties[i].name.as_str(),
                name,
            ) {
                return Some(self.wire_properties[i].value.as_str());
            }
            assert(s.skip(i as int).drop_first() =~= s.skip(i + 1));
            i = i + 1;
        }
        None
    }

    pub fn get_color_description(&self, code: &str) -> (r: Option<&str>)
        ensures
            match r {
                Some(s) => color_description_of(*self, code@) == Some(s@),
                None => color_description_of(*self, code@) is None,
            },
    {
        let ghost f = |c: ColorDescription| c.code@ == code@;
        let ghost s = self.colors@;
        let mut i: usize = 0;
        assert(s.skip(0) =~= s);
        while i < self.colors.len()
            invariant
                i <= s.len(),
                s == self.colors@,
                f == (|c: ColorDescription| c.code@ == code@),
                first_match(s, f) == first_match(s.skip(i as int), f),
            decreases s.len() - i,
        {
            assert(s.skip(i as int)[0] == s[i as int]);
            if str_eq(self.colors[i].code.as_str(), code) {
                return Some(self.colors[i].description.as_str());
            }
            assert(s.skip(i as int).drop_first() =~= s.skip(i + 1));
            i = i + 1;
        }
        None
    }
}

} // verus!
