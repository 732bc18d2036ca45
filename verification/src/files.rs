//! Firmware file formats.
//!
//! A firmware image is either Intel HEX text or a raw binary dump. The
//! format is decided from the file name's extension, with auto-detection
//! (a leading record marker) as the fallback: HEX input goes through the
//! parser, raw binary is used as-is.

use vstd::prelude::*;
use vstd::string::StringSliceAdditionalSpecFns;

use crate::errors::HexParseError;
use crate::hex::{effective_boundary, parse_hex_file, spec_parse_hex};

verus! {

/// How a firmware file's bytes are to be understood.
#[derive(Debug, Clone, Copy, PartialEq, Eq, Structural)]
pub enum FileFormat {
    /// A raw binary dump, used unmodified.
    Binary,
    /// Intel HEX text.
    Hex,
    /// Decide by looking at the content.
    Auto,
}

/// Index where the file name proper starts: right after the last path
/// separator, or zero when there is none.
pub open spec fn file_name_start(s: Seq<u8>) -> int
    decreases s.len(),
{
    if s.len() == 0 {
        0
    } else if s[s.len() - 1] == 0x2F {
        s.len() as int
    } else {
        file_name_start(s.take(s.len() - 1))
    }
}

/// Index of the last dot of the file name, or -1 when it has none.
pub open spec fn last_dot(c: Seq<u8>) -> int
    decreases c.len(),
{
    if c.len() == 0 {
        -1
    } else if c[c.len() - 1] == 0x2E {
        c.len() - 1
    } else {
        last_dot(c.take(c.len() - 1))
    }
}

/// The extension of the path's file name: what follows the last dot,
/// unless the dot is absent or starts a hidden file's name.
pub open spec fn spec_extension(s: Seq<u8>) -> Option<Seq<u8>> {
    let c = s.skip(file_name_start(s));
    let d = last_dot(c);
    if d <= 0 {
        None
    } else {
        Some(c.skip(d + 1))
    }
}

/// The format a path's extension announces: `hex` and `bin` are known,
/// anything else falls back to auto-detection.
pub open spec fn spec_format_of_path(s: Seq<u8>) -> FileFormat {
    match spec_extension(s) {
        Some(e) => if e == seq![0x68u8, 0x65u8, 0x78u8] {
            FileFormat::Hex
        } else if e == seq![0x62u8, 0x69u8, 0x6Eu8] {
            FileFormat::Binary
        } else {
            FileFormat::Auto
        },
        None => FileFormat::Auto,
    }
}

/// A scan from the right that stopped at the last separator found where
/// the file name starts.
proof fn lemma_file_name_start_scan(s: Seq<u8>, p: int)
    requires
        0 <= p <= s.len(),
        forall|j: int| p <= j < s.len() ==> s[j] != 0x2F,
        p == 0 || s[p - 1] == 0x2F,
    ensures
        file_name_start(s) == p,
    decreases s.len(),
{
    if p == s.len() {
    } else {
        assert(s[s.len() - 1] != 0x2F);
        lemma_file_name_start_scan(s.take(s.len() - 1), p);
    }
}

/// A scan from the right that stopped at the last dot found it.
proof fn lemma_last_dot_scan(c: Seq<u8>, p: int)
    requires
        0 <= p <= c.len(),
        forall|j: int| p <= j < c.len() ==> c[j] != 0x2E,
        p == 0 || c[p - 1] == 0x2E,
    ensures
        last_dot(c) == p - 1,
    decreases c.len(),
{
    if p == c.len() {
    } else {
        assert(c[c.len() - 1] != 0x2E);
        lemma_last_dot_scan(c.take(c.len() - 1), p);
    }
}

impl FileFormat {
    /// Decides the format from the path's extension: `.hex` is HEX text,
    /// `.bin` a raw binary, anything else is auto-detected later.
    #[verifier::loop_isolation(false)]
    pub fn from_extension(path: &str) -> (r: FileFormat)
        ensures
            r == spec_format_of_path(path.spec_bytes()),
    {
        let b: &[u8] = path.as_bytes();
        let n: usize = b.len();
        // Where the file name starts: after the last separator.
        let mut fstart: usize = n;
        while fstart > 0 && b[fstart - 1] != 0x2F
            invariant
                fstart <= n,
                n == b@.len(),
                forall|j: int| fstart <= j < n ==> b@[j] != 0x2F,
            decreases fstart,
        {
            fstart = fstart - 1;
        }
        proof {
            lemma_file_name_start_scan(b@, fstart as int);
        }
        let ghost c = b@.skip(fstart as int);
        // The last dot of the file name.
        let mut d: usize = n;
        while d > fstart && b[d - 1] != 0x2E
            invariant
                fstart <= d <= n,
                n == b@.len(),
                forall|j: int| d <= j < n ==> b@[j] != 0x2E,
            decreases d,
        {
            d = d - 1;
        }
        proof {
            assert forall|j: int| d - fstart <= j < c.len() implies c[j] != 0x2E by {
                assert(c[j] == b@[fstart + j]);
            }
            if d > fstart {
                assert(c[d - fstart - 1] == b@[d - 1]);
            }
            lemma_last_dot_scan(c, d as int - fstart as int);
        }
        if d - fstart <= 1 {
            // No dot, or a dot that starts a hidden file's name.
            return FileFormat::Auto;
        }
        let ghost ext = c.skip(d as int - fstart as int);
        proof {
            assert(ext =~= b@.skip(d as int));
        }
        if n - d == 3 && b[d] == 0x68 && b[d + 1] == 0x65 && b[d + 2] == 0x78 {
            proof {
                assert(ext =~= seq![0x68u8, 0x65u8, 0x78u8]);
            }
            FileFormat::Hex
        } else if n - d == 3 && b[d] == 0x62 && b[d + 1] == 0x69 && b[d + 2] == 0x6E {
            proof {
                assert(ext =~= seq![0x62u8, 0x69u8, 0x6Eu8]);
            }
            FileFormat::Binary
        } else {
            proof {
                if ext == seq![0x68u8, 0x65u8, 0x78u8] {
                    assert(ext.len() == 3);
                    assert(b@[d as int] == ext[0]);
                    assert(b@[d + 1] == ext[1]);
                    assert(b@[d + 2] == ext[2]);
                }
                if ext == seq![0x62u8, 0x69u8, 0x6Eu8] {
                    assert(ext.len() == 3);
                    assert(b@[d as int] == ext[0]);
                    assert(b@[d + 1] == ext[1]);
                    assert(b@[d + 2] == ext[2]);
                }
            }
            FileFormat::Auto
        }
    }
}

/// What `firmware_from_bytes` returns: raw binary is passed through, HEX
/// text goes through the parser, and auto-detection treats input whose
/// first byte is the record marker as HEX.
pub open spec fn spec_firmware_from_bytes(data: Seq<u8>, format: FileFormat, bs: u16) -> Result<
    Seq<u8>,
    HexParseError,
> {
    match format {
        FileFormat::Binary => Ok(data),
        FileFormat::Hex => spec_parse_hex(data, bs),
        FileFormat::Auto => if data.len() > 0 && data[0] == 0x3A {
            spec_parse_hex(data, bs)
        } else {
            Ok(data)
        },
    }
}

/// Turns the bytes of a firmware file into the flat image to flash,
/// sized against the bootloader boundary when they are HEX text.
pub fn firmware_from_bytes(data: Vec<u8>, format: FileFormat, bootloader_start: u16) -> (r: Result<
    Vec<u8>,
    HexParseError,
>)
    ensures
        match r {
            Ok(image) => spec_firmware_from_bytes(data@, format, bootloader_start)
                == Ok::<Seq<u8>, HexParseError>(image@),
            Err(e) => spec_firmware_from_bytes(data@, format, bootloader_start)
                == Err::<Seq<u8>, HexParseError>(e),
        },
{
    proof {
        assert(effective_boundary(Some(bootloader_start)) == bootloader_start);
    }
    match format {
        FileFormat::Binary => Ok(data),
        FileFormat::Hex => parse_hex_file(&data, Some(bootloader_start)),
        FileFormat::Auto => {
            if data.len() > 0 && data[0] == 0x3A {
                parse_hex_file(&data, Some(bootloader_start))
            } else {
                Ok(data)
            }
        },
    }
}

} // verus!
