//! BER-TLV with single-byte tags, as the PIV applet writes it.

use vstd::prelude::*;
use vstd::slice::slice_subrange;

verus! {

/// Why a value could not be unwrapped.
#[derive(Clone, Copy, Debug, PartialEq, Eq, Structural)]
pub enum TlvError {
    /// The buffer does not hold a whole TLV.
    Truncated,
    /// The TLV has another tag.
    UnexpectedTag { expected: u8, found: u8 },
    /// The TLV ends before the buffer does: so many bytes are left over.
    Trailing { left: usize },
}

/// The length that the header of a TLV gives, and the size of that header: a byte below 0x80 is
/// the length itself, 0x81 announces one length byte and 0x82 two. Other forms are not read.
pub open spec fn tlv_header(data: Seq<u8>) -> Option<(nat, nat)> {
    if data.len() < 2 {
        None
    } else if data[1] == 0x81 {
        if data.len() < 3 {
            None
        } else {
            Some((data[2] as nat, 3))
        }
    } else if data[1] == 0x82 {
        if data.len() < 4 {
            None
        } else {
            Some(((data[2] * 256 + data[3]) as nat, 4))
        }
    } else if data[1] < 0x80 {
        Some((data[1] as nat, 2))
    } else {
        None
    }
}

/// The TLV at the start of `data`: tag, value and remainder.
pub open spec fn first_tlv(data: Seq<u8>) -> Option<(u8, Seq<u8>, Seq<u8>)> {
    match tlv_header(data) {
        Some((len, header)) => if header + len <= data.len() {
            Some((data[0], data.subrange(header as int, (header + len) as int), data.skip(
                (header + len) as int,
            )))
        } else {
            None
        },
        None => None,
    }
}

/// What follows the TLV at the start of `data`.
pub open spec fn remainder(data: Seq<u8>) -> Seq<u8> {
    match first_tlv(data) {
        Some((_, _, rest)) => rest,
        None => data,
    }
}

/// The value of the first TLV tagged `tag` in a flat run of TLVs. A malformed TLV ends the
/// search.
pub open spec fn tlv_value(data: Seq<u8>, tag: u8) -> Option<Seq<u8>>
    decreases data.len(),
{
    if data.len() == 0 {
        None
    } else {
        match first_tlv(data) {
            Some((found, value, rest)) => if found == tag {
                Some(value)
            } else {
                tlv_value(rest, tag)
            },
            None => None,
        }
    }
}

/// The value of the single TLV that `data` is, which must be tagged `tag`. A wrong tag is found
/// first, then bytes left over.
pub open spec fn unwrapped(data: Seq<u8>, tag: u8) -> Result<Seq<u8>, TlvError> {
    match first_tlv(data) {
        Some((found, value, rest)) => if found != tag {
            Err(TlvError::UnexpectedTag { expected: tag, found })
        } else if rest.len() != 0 {
            Err(TlvError::Trailing { left: rest.len() as usize })
        } else {
            Ok(value)
        },
        None => Err(TlvError::Truncated),
    }
}

/// One BER-TLV (single-byte tag; short, 0x81 or 0x82 length): tag, value, remainder.
pub fn read_tlv(data: &[u8]) -> (out: Option<(u8, &[u8], &[u8])>)
    ensures
        match out {
            Some((tag, value, rest)) => first_tlv(data@) == Some((tag, value@, rest@)),
            None => first_tlv(data@) is None,
        },
{
    let size: usize = data.len();
    if size < 2 {
        return None;
    }
    let mut len: usize = data[1] as usize;
    let mut header: usize = 2;
    if data[1] == 0x81 {
        if size < 3 {
            return None;
        }
        len = data[2] as usize;
        header = 3;
    } else if data[1] == 0x82 {
        if size < 4 {
            return None;
        }
        len = data[2] as usize * 256 + data[3] as usize;
        header = 4;
    } else if data[1] >= 0x80 {
        return None;
    }
    if header + len > size {
        return None;
    }
    let value = slice_subrange(data, header, header + len);
    let rest = slice_subrange(data, header + len, size);
    assert(rest@ == data@.skip(header + len));
    Some((data[0], value, rest))
}

/// First value tagged `tag` in a flat short/long-form BER-TLV sequence.
pub fn find_tlv(data: &[u8], tag: u8) -> (out: Option<&[u8]>)
    ensures
        match out {
            Some(value) => tlv_value(data@, tag) == Some(value@),
            None => tlv_value(data@, tag) is None,
        },
{
    let mut left = data;
    while left.len() > 0
        invariant
            tlv_value(data@, tag) == tlv_value(left@, tag),
        decreases left@.len(),
    {
        match read_tlv(left) {
            Some((found, value, rest)) => {
                if found == tag {
                    return Some(value);
                }
                left = rest;
            },
            None => {
                return None;
            },
        }
    }
    None
}

/// Value of a single TLV that spans the whole buffer, checking its tag.
pub fn unwrap_tlv(data: &[u8], tag: u8) -> (out: Result<&[u8], TlvError>)
    ensures
        match out {
            Ok(value) => unwrapped(data@, tag) == Ok::<Seq<u8>, TlvError>(value@),
            Err(e) => unwrapped(data@, tag) == Err::<Seq<u8>, TlvError>(e),
        },
{
    match read_tlv(data) {
        Some((found, value, rest)) => if found != tag {
            Err(TlvError::UnexpectedTag { expected: tag, found })
        } else if rest.len() != 0 {
            Err(TlvError::Trailing { left: rest.len() })
        } else {
            Ok(value)
        },
        None => Err(TlvError::Truncated),
    }
}

/// The forms that a length is written in.
pub enum LengthForm {
    /// The length byte alone.
    Short,
    /// One length byte, announced by 0x81.
    One,
    /// Two length bytes, announced by 0x82.
    Two,
}

/// The form has room for this length.
pub open spec fn fits(form: LengthForm, len: nat) -> bool {
    match form {
        LengthForm::Short => len < 0x80,
        LengthForm::One => len <= 0xff,
        LengthForm::Two => len <= 0xffff,
    }
}

/// A TLV whose length is written in this form.
pub open spec fn tlv_bytes(form: LengthForm, tag: u8, value: Seq<u8>) -> Seq<u8> {
    let len = value.len();
    match form {
        LengthForm::Short => seq![tag, len as u8] + value,
        LengthForm::One => seq![tag, 0x81u8, len as u8] + value,
        LengthForm::Two => seq![tag, 0x82u8, (len / 256) as u8, (len % 256) as u8] + value,
    }
}

/// Reading takes a buffer apart without loss: header, value and remainder, put end to end,
/// are the buffer, and the remainder is shorter than the buffer.
pub proof fn law_tlv_partition(data: Seq<u8>)
    requires
        first_tlv(data) is Some,
    ensures
        ({
            let (tag, value, rest) = first_tlv(data)->0;
            let (_, header) = tlv_header(data)->0;
            &&& tag == data[0]
            &&& data.take(header as int) + value + rest == data
            &&& rest.len() < data.len()
        }),
{
    let (tag, value, rest) = first_tlv(data)->0;
    let (_, header) = tlv_header(data)->0;
    assert(data.take(header as int) + value + rest =~= data);
}

/// A TLV is read back in every length form that fits, whatever follows it: tag, value and the
/// rest.
pub proof fn law_tlv_read_back(form: LengthForm, tag: u8, value: Seq<u8>, rest: Seq<u8>)
    requires
        fits(form, value.len()),
    ensures
        first_tlv(tlv_bytes(form, tag, value) + rest) == Some((tag, value, rest)),
{
    let data = tlv_bytes(form, tag, value) + rest;
    let header: int = match form {
        LengthForm::Short => 2,
        LengthForm::One => 3,
        LengthForm::Two => 4,
    };
    let len = value.len() as int;
    assert(len == (len / 256) * 256 + len % 256);
    assert(data.subrange(header, header + len) =~= value);
    assert(data.skip(header + len) =~= rest);
}

/// Only these forms are read: what is read was written in one of them.
pub proof fn law_only_these_forms(data: Seq<u8>)
    requires
        first_tlv(data) is Some,
    ensures
        ({
            let (tag, value, rest) = first_tlv(data)->0;
            exists|form: LengthForm|
                fits(form, value.len()) && data == #[trigger] tlv_bytes(form, tag, value) + rest
        }),
{
    let (tag, value, rest) = first_tlv(data)->0;
    let len = value.len() as int;
    let form = if data[1] == 0x81 {
        LengthForm::One
    } else if data[1] == 0x82 {
        LengthForm::Two
    } else {
        LengthForm::Short
    };
    if data[1] == 0x82 {
        assert(len == data[2] * 256 + data[3]);
        assert(len / 256 == data[2] && len % 256 == data[3]);
    }
    assert(data =~= tlv_bytes(form, tag, value) + rest);
}

/// More bytes behind a TLV do not change it: they only make the remainder longer.
pub proof fn law_tlv_extended(data: Seq<u8>, more: Seq<u8>)
    requires
        first_tlv(data) is Some,
    ensures
        ({
            let (tag, value, rest) = first_tlv(data)->0;
            first_tlv(data + more) == Some((tag, value, rest + more))
        }),
{
    let (tag, value, rest) = first_tlv(data)->0;
    let (len, header) = tlv_header(data)->0;
    let all = data + more;
    assert(tlv_header(all) == tlv_header(data));
    assert(all.subrange(header as int, (header + len) as int) =~= value);
    assert(all.skip((header + len) as int) =~= rest + more);
}

/// A TLV that is cut short is never read.
pub proof fn law_tlv_cut(data: Seq<u8>, n: int)
    requires
        first_tlv(data) is Some,
        0 <= n < data.len() - remainder(data).len(),
    ensures
        first_tlv(data.take(n)) is None,
{
    if first_tlv(data.take(n)) is Some {
        law_tlv_extended(data.take(n), data.skip(n));
        assert(data.take(n) + data.skip(n) =~= data);
    }
}

/// A TLV, and the form that its length is written in.
pub struct TlvItem {
    pub form: LengthForm,
    pub tag: u8,
    pub value: Seq<u8>,
}

/// A run of whole TLVs.
pub open spec fn run_bytes(items: Seq<TlvItem>) -> Seq<u8>
    decreases items.len(),
{
    if items.len() == 0 {
        Seq::empty()
    } else {
        tlv_bytes(items[0].form, items[0].tag, items[0].value) + run_bytes(items.drop_first())
    }
}

/// A search looks at one TLV, then behind it.
pub proof fn lemma_search_step(form: LengthForm, tag: u8, value: Seq<u8>, rest: Seq<u8>, wanted: u8)
    requires
        fits(form, value.len()),
    ensures
        tlv_value(tlv_bytes(form, tag, value) + rest, wanted) == (if tag == wanted {
            Some(value)
        } else {
            tlv_value(rest, wanted)
        }),
{
    law_tlv_read_back(form, tag, value, rest);
}

/// In a run of whole TLVs the first one with the wanted tag wins, whatever follows the run; where
/// there is none, the search goes on behind the run.
pub proof fn law_find_first(items: Seq<TlvItem>, rest: Seq<u8>, wanted: u8)
    requires
        forall|i: int|
            0 <= i < items.len() ==> fits((#[trigger] items[i]).form, items[i].value.len()),
    ensures
        forall|n: int|
            0 <= n < items.len() && (#[trigger] items[n]).tag == wanted && (forall|i: int|
                0 <= i < n ==> (#[trigger] items[i]).tag != wanted) ==> tlv_value(
                run_bytes(items) + rest,
                wanted,
            ) == Some(items[n].value),
        (forall|i: int| 0 <= i < items.len() ==> (#[trigger] items[i]).tag != wanted) ==> tlv_value(
            run_bytes(items) + rest,
            wanted,
        ) == tlv_value(rest, wanted),
    decreases items.len(),
{
    if items.len() == 0 {
        assert(run_bytes(items) + rest =~= rest);
    } else {
        let first = items[0];
        let others = items.drop_first();
        let behind = run_bytes(others) + rest;
        let data = run_bytes(items) + rest;
        assert forall|i: int| 0 <= i < others.len() implies fits(
            (#[trigger] others[i]).form,
            others[i].value.len(),
        ) by {
            assert(others[i] == items[i + 1]);
        }
        law_find_first(others, rest, wanted);
        lemma_search_step(first.form, first.tag, first.value, behind, wanted);
        assert(data =~= tlv_bytes(first.form, first.tag, first.value) + behind);
        assert forall|n: int|
            0 <= n < items.len() && (#[trigger] items[n]).tag == wanted && (forall|i: int|
                0 <= i < n ==> (#[trigger] items[i]).tag != wanted) implies tlv_value(
            data,
            wanted,
        ) == Some(items[n].value) by {
            if n > 0 {
                assert(items[0].tag != wanted);
                assert(others[n - 1] == items[n]);
                assert forall|i: int| 0 <= i < n - 1 implies (#[trigger] others[i]).tag
                    != wanted by {
                    assert(others[i] == items[i + 1]);
                }
            }
        }
        if forall|i: int| 0 <= i < items.len() ==> (#[trigger] items[i]).tag != wanted {
            assert(items[0].tag != wanted);
            assert forall|i: int| 0 <= i < others.len() implies (#[trigger] others[i]).tag
                != wanted by {
                assert(others[i] == items[i + 1]);
            }
        }
    }
}

/// A buffer is unwrapped exactly where it is one TLV with the wanted tag and nothing else.
pub proof fn law_unwrapped_spans_buffer(data: Seq<u8>, tag: u8, value: Seq<u8>)
    ensures
        unwrapped(data, tag) == Ok::<Seq<u8>, TlvError>(value) <==> exists|form: LengthForm|
            fits(form, value.len()) && data == #[trigger] tlv_bytes(form, tag, value),
{
    if unwrapped(data, tag) == Ok::<Seq<u8>, TlvError>(value) {
        law_only_these_forms(data);
        let form = choose|form: LengthForm|
            fits(form, value.len()) && data == #[trigger] tlv_bytes(form, tag, value)
                + remainder(data);
        assert(tlv_bytes(form, tag, value) + remainder(data) =~= tlv_bytes(form, tag, value));
    }
    if exists|form: LengthForm|
        fits(form, value.len()) && data == #[trigger] tlv_bytes(form, tag, value) {
        let form = choose|form: LengthForm|
            fits(form, value.len()) && data == #[trigger] tlv_bytes(form, tag, value);
        law_tlv_read_back(form, tag, value, Seq::empty());
        assert(data + Seq::<u8>::empty() =~= data);
    }
}

/// The three ways in which a TLV is written: the length byte alone below 0x80; 0x81 and one length
/// byte; 0x82 and two length bytes, the higher one first. Each is read, whatever follows.
pub proof fn law_tlv_forms(tag: u8, value: Seq<u8>, rest: Seq<u8>)
    ensures
        value.len() < 0x80 ==> first_tlv(seq![tag, value.len() as u8] + value + rest) == Some(
            (tag, value, rest),
        ),
        value.len() <= 0xff ==> first_tlv(seq![tag, 0x81u8, value.len() as u8] + value + rest)
            == Some((tag, value, rest)),
        value.len() <= 0xffff ==> first_tlv(
            seq![tag, 0x82u8, (value.len() / 256) as u8, (value.len() % 256) as u8] + value + rest,
        ) == Some((tag, value, rest)),
{
    if value.len() < 0x80 {
        law_tlv_read_back(LengthForm::Short, tag, value, rest);
    }
    if value.len() <= 0xff {
        law_tlv_read_back(LengthForm::One, tag, value, rest);
    }
    if value.len() <= 0xffff {
        law_tlv_read_back(LengthForm::Two, tag, value, rest);
    }
}

/// Nothing else is read: where a TLV is read, the buffer starts with its tag, then its length in
/// one of the three forms, then its value, and the remainder is all that follows.
pub proof fn law_tlv_is_one_of_the_forms(data: Seq<u8>)
    requires
        first_tlv(data) is Some,
    ensures
        ({
            let (tag, value, rest) = first_tlv(data)->0;
            let len = value.len();
            ||| len < 0x80 && data == seq![tag, len as u8] + value + rest
            ||| len <= 0xff && data == seq![tag, 0x81u8, len as u8] + value + rest
            ||| len <= 0xffff && data == seq![
                tag,
                0x82u8,
                (len / 256) as u8,
                (len % 256) as u8,
            ] + value + rest
        }),
{
    law_only_these_forms(data);
}

/// A search looks at the first TLV: it ends there if the tag is the wanted one, and else goes on in
/// what follows. It finds nothing where no TLV can be read.
pub proof fn law_search(data: Seq<u8>, wanted: u8)
    ensures
        first_tlv(data) is None ==> tlv_value(data, wanted) is None,
        first_tlv(data) matches Some((tag, value, rest)) ==> tlv_value(data, wanted) == (if tag
            == wanted {
            Some(value)
        } else {
            tlv_value(rest, wanted)
        }),
{
}

/// Why a buffer is not unwrapped: no TLV can be read; else its tag is another; else bytes follow.
pub proof fn law_unwrap_errors(data: Seq<u8>, tag: u8)
    ensures
        first_tlv(data) is None <==> unwrapped(data, tag) == Err::<Seq<u8>, TlvError>(
            TlvError::Truncated,
        ),
        first_tlv(data) matches Some((found, value, rest)) ==> {
            &&& found != tag ==> unwrapped(data, tag) == Err::<Seq<u8>, TlvError>(
                TlvError::UnexpectedTag { expected: tag, found },
            )
            &&& found == tag && rest.len() > 0 ==> unwrapped(data, tag) == Err::<
                Seq<u8>,
                TlvError,
            >(TlvError::Trailing { left: rest.len() as usize })
            &&& found == tag && rest.len() == 0 ==> unwrapped(data, tag) == Ok::<
                Seq<u8>,
                TlvError,
            >(value)
        },
{
}

} // verus!
