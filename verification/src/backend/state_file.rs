//! The state file: this side's identity and the peer's bundle, kept between runs.
//!
//! The identity has no fixed size, so its length stands in front of it.

use crate::backend::framing;
use vstd::prelude::*;
use vstd::slice::slice_subrange;

verus! {

/// Why a state file cannot be taken apart.
#[derive(Clone, Copy, Debug, PartialEq, Eq, Structural)]
pub enum StateError {
    /// The file is too short to hold the identity's length.
    NoLength,
    /// The file is shorter than the identity's length announces.
    Truncated { need: u64, got: usize },
}

/// The contents of a state file.
pub open spec fn state_bytes(identity: Seq<u8>, bundle: Seq<u8>) -> Seq<u8> {
    framing::length_bytes(identity.len()) + identity + bundle
}

/// The identity and the bundle that a state file holds.
pub open spec fn state_parts(file: Seq<u8>) -> Result<(Seq<u8>, Seq<u8>), StateError> {
    if file.len() < 4 {
        Err(StateError::NoLength)
    } else {
        let end = 4 + framing::length_of(file.take(4));
        if file.len() < end {
            Err(StateError::Truncated { need: end as u64, got: file.len() as usize })
        } else {
            Ok((file.subrange(4, end as int), file.skip(end as int)))
        }
    }
}

/// The contents of the state file for this identity and this bundle.
pub fn encode_state(identity: &[u8], bundle: &[u8]) -> (file: Vec<u8>)
    ensures
        file@ == state_bytes(identity@, bundle@),
{
    let mut file: Vec<u8> = Vec::new();
    let prefix = framing::length_prefix(identity.len());
    file.extend_from_slice(prefix.as_slice());
    file.extend_from_slice(identity);
    file.extend_from_slice(bundle);
    assert(file@ =~= state_bytes(identity@, bundle@));
    file
}

/// Takes a state file apart into the identity and the bundle.
pub fn split_state(file: &[u8]) -> (out: Result<(&[u8], &[u8]), StateError>)
    ensures
        match out {
            Ok((identity, bundle)) => state_parts(file@) == Ok::<(Seq<u8>, Seq<u8>), StateError>(
                (identity@, bundle@),
            ),
            Err(e) => state_parts(file@) == Err::<(Seq<u8>, Seq<u8>), StateError>(e),
        },
{
    let got: usize = file.len();
    if got < 4 {
        return Err(StateError::NoLength);
    }
    let prefix = [file[0], file[1], file[2], file[3]];
    assert(prefix@ =~= file@.take(4));
    let len: u32 = framing::read_length(&prefix);
    let left: u64 = (got - 4) as u64;
    if left < len as u64 {
        return Err(StateError::Truncated { need: 4 + len as u64, got });
    }
    let end: usize = 4 + len as usize;
    let identity = slice_subrange(file, 4, end);
    let bundle = slice_subrange(file, end, got);
    assert(bundle@ == file@.skip(end as int));
    Ok((identity, bundle))
}

/// What is saved is loaded: taking a state file apart gives the identity and the bundle that
/// it was made of.
pub proof fn law_state_read_back(identity: Seq<u8>, bundle: Seq<u8>)
    requires
        identity.len() <= u32::MAX,
    ensures
        state_parts(state_bytes(identity, bundle)) == Ok::<(Seq<u8>, Seq<u8>), StateError>(
            (identity, bundle),
        ),
{
    let file = state_bytes(identity, bundle);
    framing::law_length_read_back(identity.len());
    assert(file.take(4) =~= framing::length_bytes(identity.len()));
    assert(file.subrange(4, 4 + identity.len() as int) =~= identity);
    assert(file.skip(4 + identity.len() as int) =~= bundle);
}

/// A state file is the identity's length, highest byte first, the identity, and the bundle. The
/// length is what four bytes hold of it.
pub proof fn law_state_layout(identity: Seq<u8>, bundle: Seq<u8>)
    ensures
        ({
            let file = state_bytes(identity, bundle);
            let n = identity.len() as int;
            &&& file.len() == 4 + n + bundle.len()
            &&& n % 0x1_0000_0000 == ((file[0] as int * 256 + file[1]) * 256 + file[2]) * 256 + file[3]
            &&& file.subrange(4, 4 + n) == identity
            &&& file.skip(4 + n) == bundle
        }),
{
    let file = state_bytes(identity, bundle);
    let n = identity.len() as int;
    let prefix = framing::length_bytes(identity.len());
    framing::law_big_endian(file[0], file[1], file[2], file[3], identity.len());
    assert(seq![file[0], file[1], file[2], file[3]] =~= prefix);
    assert(file.subrange(4, 4 + n) =~= identity);
    assert(file.skip(4 + n) =~= bundle);
}

/// How a file is taken apart: its first four bytes give, highest first, how many bytes of the rest
/// are the identity; what follows those is the bundle. A file that is too short for either is
/// refused, with what it would need and what it has.
pub proof fn law_state_parts(a: u8, b: u8, c: u8, d: u8, rest: Seq<u8>, short: Seq<u8>)
    requires
        short.len() < 4,
        4 + rest.len() <= usize::MAX,
    ensures
        state_parts(short) == Err::<(Seq<u8>, Seq<u8>), StateError>(StateError::NoLength),
        ({
            let n = ((a as int * 256 + b) * 256 + c) * 256 + d;
            let file = seq![a, b, c, d] + rest;
            if rest.len() < n {
                state_parts(file) == Err::<(Seq<u8>, Seq<u8>), StateError>(
                    StateError::Truncated { need: (4 + n) as u64, got: (4 + rest.len()) as usize },
                )
            } else {
                state_parts(file) == Ok::<(Seq<u8>, Seq<u8>), StateError>(
                    (rest.take(n), rest.skip(n)),
                )
            }
        }),
{
    let n = ((a as int * 256 + b) * 256 + c) * 256 + d;
    let file = seq![a, b, c, d] + rest;
    framing::law_big_endian(a, b, c, d, 0);
    assert(file.take(4) =~= seq![a, b, c, d]);
    if rest.len() >= n {
        assert(file.subrange(4, 4 + n) =~= rest.take(n));
        assert(file.skip(4 + n) =~= rest.skip(n));
    }
}

} // verus!
