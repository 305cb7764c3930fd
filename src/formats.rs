//! The archive formats and their codecs.
use vstd::prelude::*;
use vstd::string::StringSliceAdditionalSpecFns;

pub mod hssp;
pub mod rar;
pub mod zip;

verus! {

/// The formats whose archives this library reads.
#[derive(Debug, Clone, Copy, PartialEq, Eq, Structural)]
pub enum Formats {
    Zip,
    Rar,
    Hssp,
}

/// The formats a format name on a command line can select.
#[derive(Debug, Clone, Copy, PartialEq, Eq, Structural)]
pub enum Format {
    Zip,
    Umsbt,
    Msbt,
    Hssp1,
    Hssp2,
    Hssp3,
}

/// How a format lays out and protects its entries.
#[derive(Debug, Clone, Copy, PartialEq, Eq, Structural)]
pub enum ArchiveFormatType {
    /// Every entry is compressed and encrypted on its own, and the index is
    /// never encrypted.
    ZipLike,
}

/// A format's layout.
pub trait ArchiveFormat {
    fn get_type(&self) -> ArchiveFormatType;
}

/// How hard format detection is to try.
#[derive(Debug, Clone, Copy, PartialEq, Eq, Structural)]
pub enum DetectionAccuracy {
    Extension,
    Magic,
    Parse,
}

/// The format that a name, as bytes, selects: `zip`, `umsbt` or `msbt`.
pub open spec fn format_named(name: Seq<u8>) -> Option<Format> {
    if name == seq![0x7au8, 0x69, 0x70] {
        Some(Format::Zip)
    } else if name == seq![0x75u8, 0x6d, 0x73, 0x62, 0x74] {
        Some(Format::Umsbt)
    } else if name == seq![0x6du8, 0x73, 0x62, 0x74] {
        Some(Format::Msbt)
    } else {
        None
    }
}

fn bytes_are(b: &[u8], expected: &[u8]) -> (r: bool)
    ensures
        r == (b@ == expected@),
{
    if b.len() != expected.len() {
        return false;
    }
    let mut i: usize = 0;
    while i < b.len()
        invariant
            b@.len() == expected@.len(),
            i <= b@.len(),
            forall|k: int| 0 <= k < i ==> b@[k] == expected@[k],
        decreases b@.len() - i,
    {
        if b[i] != expected[i] {
            return false;
        }
        i = i + 1;
    }
    assert(b@ =~= expected@);
    true
}

/// The format that the name `s` selects: `zip`, `umsbt` or `msbt`.
pub fn from_str(s: &str) -> (r: Option<Format>)
    ensures
        r == format_named(s.spec_bytes()),
{
    let b = s.as_bytes();
    if bytes_are(b, &[0x7au8, 0x69, 0x70]) {
        proof {
            assert(b@ =~= seq![0x7au8, 0x69, 0x70]);
        }
        Some(Format::Zip)
    } else if bytes_are(b, &[0x75u8, 0x6d, 0x73, 0x62, 0x74]) {
        proof {
            assert(b@ =~= seq![0x75u8, 0x6d, 0x73, 0x62, 0x74]);
        }
        Some(Format::Umsbt)
    } else if bytes_are(b, &[0x6du8, 0x73, 0x62, 0x74]) {
        proof {
            assert(b@ =~= seq![0x6du8, 0x73, 0x62, 0x74]);
        }
        Some(Format::Msbt)
    } else {
        proof {
            assert(b@ != seq![0x7au8, 0x69, 0x70]) by {
                if b@ == seq![0x7au8, 0x69, 0x70] {
                    assert([0x7au8, 0x69, 0x70]@ =~= seq![0x7au8, 0x69, 0x70]);
                }
            }
            assert(b@ != seq![0x75u8, 0x6d, 0x73, 0x62, 0x74]) by {
                if b@ == seq![0x75u8, 0x6d, 0x73, 0x62, 0x74] {
                    assert([0x75u8, 0x6d, 0x73, 0x62, 0x74]@ =~= seq![0x75u8, 0x6d, 0x73, 0x62, 0x74]);
                }
            }
            assert(b@ != seq![0x6du8, 0x73, 0x62, 0x74]) by {
                if b@ == seq![0x6du8, 0x73, 0x62, 0x74] {
                    assert([0x6du8, 0x73, 0x62, 0x74]@ =~= seq![0x6du8, 0x73, 0x62, 0x74]);
                }
            }
        }
        None
    }
}

} // verus!
