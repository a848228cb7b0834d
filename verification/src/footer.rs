//! The layout of a cache file: the body, the metadata, and the length of the metadata in the
//! last four bytes.
use crate::error::{ErrorKind, ProxyError};
use vstd::prelude::*;
use vstd::string::*;

verus! {

/// The bytes at the end that hold the length of the metadata.
pub const FOOTER_LEN: usize = 4;

/// No metadata is larger than this.
pub const MAX_META_LEN: usize = 1_048_576;

/// A number below 2^32 in four bytes, the highest first.
pub open spec fn big_endian(n: int) -> Seq<u8> {
    seq![
        (n / 16777216) as u8,
        (n / 65536 % 256) as u8,
        (n / 256 % 256) as u8,
        (n % 256) as u8,
    ]
}

/// The number that four bytes write, the highest first.
pub open spec fn big_endian_value(b: Seq<u8>) -> int {
    b[0] as int * 16777216 + b[1] as int * 65536 + b[2] as int * 256 + b[3] as int
}

/// The cache file of a body and its metadata.
pub open spec fn packed(body: Seq<u8>, meta: Seq<u8>) -> Seq<u8> {
    body + meta + big_endian(meta.len() as int)
}

/// What a file of `total` bytes that ends in `footer` says of itself: the length of the body
/// and of the metadata.
pub open spec fn geometry(total: int, footer: Seq<u8>) -> Result<(int, int), Seq<char>> {
    let meta_len = big_endian_value(footer);
    if meta_len > MAX_META_LEN {
        Err("cache entry metadata length exceeds sanity cap"@)
    } else if meta_len > total - 4 {
        Err("cache entry metadata length exceeds file size"@)
    } else {
        Ok((total - 4 - meta_len, meta_len))
    }
}

/// What is written behind metadata: its length.
pub fn meta_footer(meta: &[u8]) -> (r: Result<Vec<u8>, ProxyError>)
    ensures
        if meta@.len() <= MAX_META_LEN {
            r matches Ok(f) && f@ == big_endian(meta@.len() as int)
        } else {
            r matches Err(e) && e.is(ErrorKind::InvalidData, "metadata too large"@)
        },
{
    if meta.len() > MAX_META_LEN {
        return Err(ProxyError::new(ErrorKind::InvalidData, "metadata too large"));
    }
    let n: u32 = meta.len() as u32;
    let mut out: Vec<u8> = Vec::new();
    out.push((n / 16777216) as u8);
    out.push((n / 65536 % 256) as u8);
    out.push((n / 256 % 256) as u8);
    out.push((n % 256) as u8);
    proof {
        assert(out@ =~= big_endian(meta@.len() as int));
    }
    Ok(out)
}

/// The cache file of a body and its metadata.
pub fn pack_footer(body: &[u8], meta: &[u8]) -> (r: Result<Vec<u8>, ProxyError>)
    ensures
        if meta@.len() <= MAX_META_LEN {
            r matches Ok(f) && f@ == packed(body@, meta@)
        } else {
            r matches Err(e) && e.is(ErrorKind::InvalidData, "metadata too large"@)
        },
{
    let footer = match meta_footer(meta) {
        Ok(footer) => footer,
        Err(error) => return Err(error),
    };
    let mut out: Vec<u8> = Vec::new();
    out.extend_from_slice(body);
    out.extend_from_slice(meta);
    out.extend_from_slice(footer.as_slice());
    proof {
        assert(out@ =~= packed(body@, meta@));
    }
    Ok(out)
}

/// The error of a file that cannot hold a footer.
pub fn short_footer_err() -> (r: ProxyError)
    ensures
        r.is(ErrorKind::InvalidData, "cache entry shorter than footer"@),
{
    ProxyError::new(ErrorKind::InvalidData, "cache entry shorter than footer")
}

/// Where the footer of a file of `total_size` bytes begins.
pub fn footer_offset(total_size: u64) -> (r: Result<u64, ProxyError>)
    ensures
        if total_size < 4 {
            r matches Err(e) && e.is(ErrorKind::InvalidData, "cache entry shorter than footer"@)
        } else {
            r matches Ok(offset) && offset == total_size - 4
        },
{
    if total_size < 4 {
        Err(short_footer_err())
    } else {
        Ok(total_size - 4)
    }
}

/// The length of the body and of the metadata of a file of `total_size` bytes that ends in
/// `footer`.
pub fn footer_geometry(total_size: u64, footer: [u8; 4]) -> (r: Result<(u64, usize), ProxyError>)
    requires
        total_size >= 4,
    ensures
        match geometry(total_size as int, footer@) {
            Ok((body_len, meta_len)) => r matches Ok(g) && g.0 == body_len && g.1 == meta_len,
            Err(message) => r matches Err(e) && e.is(ErrorKind::InvalidData, message),
        },
{
    let meta_len: u64 = footer[0] as u64 * 16777216 + footer[1] as u64 * 65536 + footer[2] as u64
        * 256 + footer[3] as u64;
    if meta_len > MAX_META_LEN as u64 {
        return Err(
            ProxyError::new(
                ErrorKind::InvalidData,
                "cache entry metadata length exceeds sanity cap",
            ),
        );
    }
    let available: u64 = total_size - 4;
    if meta_len > available {
        return Err(
            ProxyError::new(
                ErrorKind::InvalidData,
                "cache entry metadata length exceeds file size",
            ),
        );
    }
    Ok((available - meta_len, meta_len as usize))
}

/// Tells whether a failure to open or to read an entry only means that there is none: the
/// file is not there, or it is no complete cache file.
pub fn is_miss(opened: bool, kind: ErrorKind) -> (r: bool)
    ensures
        r == (if opened {
            kind == ErrorKind::InvalidData
        } else {
            kind == ErrorKind::NotFound
        }),
{
    match kind {
        ErrorKind::InvalidData => opened,
        ErrorKind::NotFound => !opened,
        _ => false,
    }
}

/// What is packed is found again: the lengths that the file gives are those of the body and
/// the metadata, and the body and the metadata stand where the lengths say.
pub proof fn packed_entries_read_back(body: Seq<u8>, meta: Seq<u8>)
    requires
        meta.len() <= MAX_META_LEN,
    ensures
        ({
            let file = packed(body, meta);
            let footer = file.subrange(file.len() - 4, file.len() as int);
            &&& file.len() == body.len() + meta.len() + 4
            &&& geometry(file.len() as int, footer) == Ok::<(int, int), Seq<char>>(
                (body.len() as int, meta.len() as int),
            )
            &&& file.subrange(0, body.len() as int) == body
            &&& file.subrange(body.len() as int, body.len() + meta.len() as int) == meta
        }),
{
    let file = packed(body, meta);
    let footer = file.subrange(file.len() - 4, file.len() as int);
    let n = meta.len() as int;
    assert(footer =~= big_endian(n));
    assert(big_endian_value(big_endian(n)) == n);
    assert(file.subrange(0, body.len() as int) =~= body);
    assert(file.subrange(body.len() as int, body.len() + meta.len() as int) =~= meta);
}

/// Whatever a file holds, the body and the metadata that its footer gives lie within it, end
/// to end.
pub proof fn geometry_stays_within_the_file(total: int, footer: Seq<u8>)
    requires
        total >= 4,
        footer.len() == 4,
    ensures
        geometry(total, footer) matches Ok((body_len, meta_len)) ==> 0 <= body_len && 0 <= meta_len
            <= MAX_META_LEN && body_len + meta_len + 4 == total,
{
}

/// A cache file is the body, the metadata, and in its last four bytes the length of the metadata,
/// the highest byte first.
pub proof fn files_end_in_the_length_of_their_metadata(body: Seq<u8>, meta: Seq<u8>)
    requires
        meta.len() <= MAX_META_LEN,
    ensures
        MAX_META_LEN == 1024 * 1024,
        ({
            let n = meta.len() as int;
            packed(body, meta) == body + meta + seq![
                0u8,
                (n / 65536) as u8,
                (n / 256 % 256) as u8,
                (n % 256) as u8,
            ]
        }),
{
    let n = meta.len() as int;
    assert(n / 16777216 == 0);
    assert(n / 65536 % 256 == n / 65536);
    assert(big_endian(n) =~= seq![
        0u8,
        (n / 65536) as u8,
        (n / 256 % 256) as u8,
        (n % 256) as u8,
    ]);
}

/// What the last four bytes of a file say: metadata of more than 1 MiB, or longer than the rest of
/// the file, is none; otherwise it stands right before them, and the body before it.
pub proof fn footers_are_read_as_lengths(total: int, a: u8, b: u8, c: u8, d: u8)
    requires
        total >= 4,
    ensures
        ({
            let n = a as int * 16777216 + b as int * 65536 + c as int * 256 + d as int;
            let r = geometry(total, seq![a, b, c, d]);
            &&& n > 1024 * 1024 ==> r == Err::<(int, int), Seq<char>>(
                "cache entry metadata length exceeds sanity cap"@,
            )
            &&& n <= 1024 * 1024 && n > total - 4 ==> r == Err::<(int, int), Seq<char>>(
                "cache entry metadata length exceeds file size"@,
            )
            &&& n <= 1024 * 1024 && n <= total - 4 ==> r == Ok::<(int, int), Seq<char>>(
                (total - 4 - n, n),
            )
        }),
{
}

} // verus!
