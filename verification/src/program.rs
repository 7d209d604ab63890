//! The running program: its addresses and its version information.
use vstd::prelude::*;

use crate::text::{push_decimal, same_text};

verus! {

/// A loaded program, by the address it was loaded at.
#[derive(Clone, Copy, Debug)]
pub struct Program {
    pub base: usize,
}

/// The address at an offset from a base, wrapping around.
pub open spec fn address_at(base: usize, rva: u32) -> int {
    if base + rva <= usize::MAX {
        base + rva
    } else {
        base + rva - usize::MAX - 1
    }
}

impl Program {
    /// The address at the given offset from the program's base, wrapping around.
    pub fn derva(self, rva: u32) -> (r: usize)
        ensures
            r == address_at(self.base, rva),
    {
        self.base.wrapping_add(rva as usize)
    }
}

/// The four parts of a version, separated by dots.
pub open spec fn version_parts(major: u16, minor: u16, patch: u16, build: u16) -> Seq<char> {
    crate::text::decimal(major as nat) + seq!['.'] + crate::text::decimal(minor as nat) + seq!['.']
        + crate::text::decimal(patch as nat) + seq!['.'] + crate::text::decimal(build as nat)
}

/// The version as it is compared and shown.
pub fn version_text(major: u16, minor: u16, patch: u16, build: u16) -> (r: String)
    ensures
        r@ == version_parts(major, minor, patch, build),
{
    let mut out = String::new();
    push_decimal(&mut out, major as u64);
    out.push('.');
    push_decimal(&mut out, minor as u64);
    out.push('.');
    push_decimal(&mut out, patch as u64);
    out.push('.');
    push_decimal(&mut out, build as u64);
    assert(out@ =~= version_parts(major, minor, patch, build));
    out
}

/// The last product name among the version strings, given as keys and values.
pub open spec fn product_of(entries: Seq<(String, String)>) -> Option<Seq<char>>
    decreases entries.len(),
{
    if entries.len() == 0 {
        None
    } else if entries.last().0@ == "ProductName"@ {
        Some(entries.last().1@)
    } else {
        product_of(entries.drop_last())
    }
}

/// The product name among the version strings: the last one, where there are several.
pub fn product_name(entries: &Vec<(String, String)>) -> (r: Option<String>)
    ensures
        match r {
            Some(name) => product_of(entries@) == Some(name@),
            None => product_of(entries@) is None,
        },
{
    let mut i: usize = entries.len();
    assert(entries@.take(i as int) =~= entries@);
    while i > 0
        invariant
            i <= entries@.len(),
            product_of(entries@.take(i as int)) == product_of(entries@),
        decreases i,
    {
        assert(entries@.take(i as int).drop_last() =~= entries@.take(i - 1));
        if same_text(entries[i - 1].0.as_str(), "ProductName") {
            return Some(entries[i - 1].1.clone());
        }
        i = i - 1;
    }
    None
}

/// What a program's version information says, with the strings of its first language.
pub struct VersionInfo {
    /// The product version's four parts, where there is one.
    pub product_version: Option<(u16, u16, u16, u16)>,
    /// The version strings of the first language, where there is a language.
    pub strings: Option<Vec<(String, String)>>,
}

/// The product name and version that the version information gives, if it gives both.
pub open spec fn product_info(info: VersionInfo) -> Option<(Seq<char>, Seq<char>)> {
    match (info.product_version, info.strings) {
        (Some(v), Some(strings)) => match product_of(strings@) {
            Some(name) => Some((name, version_parts(v.0, v.1, v.2, v.3))),
            None => None,
        },
        _ => None,
    }
}

/// The product name and version of a program with this version information.
pub fn get_product_info(info: &VersionInfo) -> (r: Option<(String, String)>)
    ensures
        match r {
            Some(pair) => product_info(*info) == Some((pair.0@, pair.1@)),
            None => product_info(*info) is None,
        },
{
    match (&info.product_version, &info.strings) {
        (Some(v), Some(strings)) => match product_name(strings) {
            Some(name) => Some((name, version_text(v.0, v.1, v.2, v.3))),
            None => None,
        },
        _ => None,
    }
}

/// What is shown when the program panics: the message, or a general one, and the place.
pub open spec fn panic_message(
    payload: Option<Seq<char>>,
    location: Option<(Seq<char>, u32, u32)>,
) -> Seq<char> {
    "Error: "@ + (match payload {
        Some(text) => text,
        None => "Failed to inject dll"@,
    }) + (match location {
        Some((file, line, column)) => "\n    "@ + file + ":"@ + crate::text::decimal(line as nat)
            + ":"@ + crate::text::decimal(column as nat),
        None => seq![],
    })
}

/// A panic's place: file, line and column.
pub struct PanicLocation {
    pub file: String,
    pub line: u32,
    pub column: u32,
}

/// What is shown when the program panics.
pub fn panic_text(payload: Option<&str>, location: Option<&PanicLocation>) -> (r: String)
    ensures
        r@ == panic_message(
            match payload {
                Some(text) => Some(text@),
                None => None,
            },
            match location {
                Some(l) => Some((l.file@, l.line, l.column)),
                None => None,
            },
        ),
{
    let mut out = "Error: ".to_owned();
    match payload {
        Some(text) => out.append(text),
        None => out.append("Failed to inject dll"),
    }
    let ghost first = out@;
    if let Some(l) = location {
        out.append("\n    ");
        out.append(l.file.as_str());
        out.append(":");
        push_decimal(&mut out, l.line as u64);
        out.append(":");
        push_decimal(&mut out, l.column as u64);
        assert(out@ =~= first + ("\n    "@ + l.file@ + ":"@ + crate::text::decimal(
            l.line as nat,
        ) + ":"@ + crate::text::decimal(l.column as nat)));
    } else {
        assert(out@ =~= first + Seq::<char>::empty());
    }
    out
}

/// The product name is the value of the last string with that key, and there is none only where no
/// string has it.
pub proof fn lemma_product_of(entries: Seq<(String, String)>)
    ensures
        match product_of(entries) {
            Some(name) => exists|i: int|
                0 <= i < entries.len() && (#[trigger] entries[i]).0@ == "ProductName"@
                    && entries[i].1@ == name && forall|j: int|
                    i < j < entries.len() ==> (#[trigger] entries[j]).0@ != "ProductName"@,
            None => forall|j: int|
                0 <= j < entries.len() ==> (#[trigger] entries[j]).0@ != "ProductName"@,
        },
    decreases entries.len(),
{
    if entries.len() > 0 {
        let n = entries.len() - 1;
        let rest = entries.drop_last();
        lemma_product_of(rest);
        if entries[n].0@ != "ProductName"@ {
            match product_of(rest) {
                Some(name) => {
                    let i = choose|i: int|
                        0 <= i < rest.len() && (#[trigger] rest[i]).0@ == "ProductName"@
                            && rest[i].1@ == name && forall|j: int|
                            i < j < rest.len() ==> (#[trigger] rest[j]).0@ != "ProductName"@;
                    assert(entries[i] == rest[i]);
                    assert forall|j: int| i < j < entries.len() implies (
                    #[trigger] entries[j]).0@ != "ProductName"@ by {
                        if j < rest.len() {
                            assert(rest[j] == entries[j]);
                        }
                    }
                },
                None => {
                    assert forall|j: int| 0 <= j < entries.len() implies (
                    #[trigger] entries[j]).0@ != "ProductName"@ by {
                        if j < rest.len() {
                            assert(rest[j] == entries[j]);
                        }
                    }
                },
            }
        }
    }
}

/// A version is its four parts in decimal, joined by dots, the most significant first.
pub proof fn lemma_version_parts(major: u16, minor: u16, patch: u16, build: u16)
    ensures
        version_parts(major, minor, patch, build) == crate::text::joined(
            seq![
                crate::text::decimal(major as nat),
                crate::text::decimal(minor as nat),
                crate::text::decimal(patch as nat),
                crate::text::decimal(build as nat),
            ],
            seq!['.'],
        ),
{
    let a = crate::text::decimal(major as nat);
    let b = crate::text::decimal(minor as nat);
    let c = crate::text::decimal(patch as nat);
    let d = crate::text::decimal(build as nat);
    let dot = seq!['.'];
    let none = Seq::<Seq<char>>::empty();
    crate::text::lemma_joined(none, dot, a);
    crate::text::lemma_joined(none.push(a), dot, b);
    crate::text::lemma_joined(none.push(a).push(b), dot, c);
    crate::text::lemma_joined(none.push(a).push(b).push(c), dot, d);
    assert(seq![a, b, c, d] =~= none.push(a).push(b).push(c).push(d));
}

/// Version information gives a product just where it has a version and strings with a product name.
pub proof fn lemma_product_info(info: VersionInfo)
    ensures
        product_info(info) is Some <==> info.product_version is Some && info.strings is Some
            && product_of(info.strings.unwrap()@) is Some,
        product_info(info) matches Some(p) ==> Some(p.0) == product_of(info.strings.unwrap()@)
            && p.1 == version_parts(
            info.product_version.unwrap().0,
            info.product_version.unwrap().1,
            info.product_version.unwrap().2,
            info.product_version.unwrap().3,
        ),
{
}

/// What is shown of a panic: its message or a general one, and where it has a place, that on a line
/// of its own.
pub proof fn lemma_panic_message(
    payload: Option<Seq<char>>,
    location: Option<(Seq<char>, u32, u32)>,
)
    ensures
        ({
            let text = match payload {
                Some(text) => "Error: "@ + text,
                None => "Error: "@ + "Failed to inject dll"@,
            };
            &&& location is None ==> panic_message(payload, location) == text
            &&& location matches Some(l) ==> panic_message(payload, location) == text + (
            "\n    "@ + l.0 + ":"@ + crate::text::decimal(l.1 as nat) + ":"@
                + crate::text::decimal(l.2 as nat))
        }),
{
    let text = match payload {
        Some(text) => "Error: "@ + text,
        None => "Error: "@ + "Failed to inject dll"@,
    };
    if location is None {
        assert(panic_message(payload, location) =~= text);
    }
}

/// An address is as far above the base as the offset says, and after the highest comes zero.
pub proof fn lemma_address_at(base: usize, rva: u32)
    ensures
        0 <= address_at(base, rva) <= usize::MAX,
        address_at(base, 0) == base,
        rva < u32::MAX ==> address_at(base, (rva + 1) as u32) == if address_at(base, rva)
            == usize::MAX {
            0
        } else {
            address_at(base, rva) + 1
        },
{
}

} // verus!
