use vstd::prelude::*;
use vstd::slice::{slice_subrange, slice_to_vec};
use vstd::utf8::{
    decode_utf8, encode_utf8, encode_utf8_decode_utf8, encode_utf8_valid_utf8, valid_utf8,
};

use crate::error::{DecodeError, EncodeError};

verus! {

/// The labels of a name, each as its characters.
pub open spec fn labels_view(name: Seq<String>) -> Seq<Seq<char>> {
    name.map_values(|s: String| s@)
}

/// Decodes a name read from `pos`, where the current segment of the name began
/// at `start`. A compression pointer must point strictly before `start`, so
/// every pointer followed moves the segment start backwards.
pub open spec fn name_from(buf: Seq<u8>, start: int, pos: int) -> Result<
    (Seq<Seq<char>>, int),
    DecodeError,
>
    decreases start, buf.len() - pos,
{
    if start < 0 || pos < 0 || pos >= buf.len() {
        Err(DecodeError::MalformedMessage)
    } else {
        let n = buf[pos];
        if n == 0 {
            Ok((seq![], pos + 1))
        } else if n < 64 {
            let end = pos + 1 + n;
            if end > buf.len() {
                Err(DecodeError::MalformedMessage)
            } else if !valid_utf8(buf.subrange(pos + 1, end)) {
                Err(DecodeError::MalformedName)
            } else {
                match name_from(buf, start, end) {
                    Ok((rest, next)) => Ok(
                        (seq![decode_utf8(buf.subrange(pos + 1, end))] + rest, next),
                    ),
                    Err(e) => Err(e),
                }
            }
        } else if n < 192 {
            Err(DecodeError::MalformedName)
        } else if pos + 2 > buf.len() {
            Err(DecodeError::MalformedMessage)
        } else {
            let target = (n - 192) * 256 + buf[pos + 1];
            if target >= start {
                Err(DecodeError::MalformedName)
            } else {
                match name_from(buf, target, target) {
                    Ok((rest, _)) => Ok((rest, pos + 2)),
                    Err(e) => Err(e),
                }
            }
        }
    }
}

/// The name encoded at `offset`, with the offset just past it.
pub open spec fn name_at(buf: Seq<u8>, offset: int) -> Result<(Seq<Seq<char>>, int), DecodeError> {
    name_from(buf, offset, offset)
}

/// A decoded name ends after the offset it was read from, within the buffer.
pub proof fn lemma_name_from_bounds(buf: Seq<u8>, start: int, pos: int)
    ensures
        name_from(buf, start, pos) matches Ok((_, next)) ==> pos < next <= buf.len(),
    decreases start, buf.len() - pos,
{
    if start < 0 || pos < 0 || pos >= buf.len() {
    } else {
        let n = buf[pos];
        if n != 0 && n < 64 && pos + 1 + n <= buf.len() {
            lemma_name_from_bounds(buf, start, pos + 1 + n);
        }
    }
}

/// Relies on `String::from_utf8`: it succeeds exactly on valid UTF-8 and then
/// holds the decoded characters.
#[verifier::external_body]
fn string_from_utf8(bytes: Vec<u8>) -> (r: Option<String>)
    ensures
        r is Some <==> valid_utf8(bytes@),
        r matches Some(s) ==> s@ == decode_utf8(bytes@),
{
    String::from_utf8(bytes).ok()
}

/// Decodes the name at `offset`, following compression pointers.
pub fn unpack(message: &[u8], offset: usize) -> (r: Result<(Vec<String>, usize), DecodeError>)
    ensures
        match r {
            Ok((name, next)) => name_at(message@, offset as int) == Ok::<_, DecodeError>(
                (labels_view(name@), next as int),
            ),
            Err(e) => name_at(message@, offset as int) == Err::<(Seq<Seq<char>>, int), DecodeError>(e),
        },
        r matches Ok((_, next)) ==> offset < next <= message@.len(),
{
    let ghost m = message@;
    let mut labels: Vec<String> = Vec::new();
    let mut start: usize = offset;
    let mut pos: usize = offset;
    let mut resume: Option<usize> = None;
    proof {
        match name_from(m, start as int, pos as int) {
            Ok((rest, _)) => {
                assert(labels_view(labels@) + rest =~= rest);
            },
            Err(_) => {},
        }
    }
    loop
        invariant
            m == message@,
            start <= pos,
            match name_from(m, start as int, pos as int) {
                Ok((rest, next)) => name_at(m, offset as int) == Ok::<_, DecodeError>(
                    (
                        labels_view(labels@) + rest,
                        match resume {
                            Some(e) => e as int,
                            None => next,
                        },
                    ),
                ),
                Err(e) => name_at(m, offset as int) == Err::<(Seq<Seq<char>>, int), DecodeError>(e),
            },
        decreases start, message@.len() - pos,
    {
        if pos >= message.len() {
            return Err(DecodeError::MalformedMessage);
        }
        let n = message[pos];
        if n == 0 {
            assert(labels_view(labels@) + seq![] =~= labels_view(labels@));
            let next = match resume {
                Some(e) => e,
                None => pos + 1,
            };
            proof {
                lemma_name_from_bounds(m, offset as int, offset as int);
                assert(name_at(m, offset as int) == Ok::<_, DecodeError>(
                    (labels_view(labels@), next as int),
                ));
            }
            return Ok((labels, next));
        } else if n < 64 {
            if n as usize > message.len() - pos - 1 {
                return Err(DecodeError::MalformedMessage);
            }
            let end = pos + 1 + n as usize;
            let bytes = slice_to_vec(slice_subrange(message, pos + 1, end));
            match string_from_utf8(bytes) {
                None => {
                    return Err(DecodeError::MalformedName);
                },
                Some(label) => {
                    let ghost old_labels = labels@;
                    labels.push(label);
                    proof {
                        assert(labels_view(labels@) =~= labels_view(old_labels).push(label@));
                        match name_from(m, start as int, end as int) {
                            Ok((rest, _)) => {
                                assert(labels_view(labels@) + rest =~= labels_view(old_labels)
                                    + (seq![label@] + rest));
                            },
                            Err(_) => {},
                        }
                    }
                    pos = end;
                },
            }
        } else if n < 192 {
            return Err(DecodeError::MalformedName);
        } else {
            if message.len() - pos < 2 {
                return Err(DecodeError::MalformedMessage);
            }
            let target = (n as usize - 192) * 256 + message[pos + 1] as usize;
            if target >= start {
                return Err(DecodeError::MalformedName);
            }
            if resume.is_none() {
                resume = Some(pos + 2);
            }
            start = target;
            pos = target;
        }
    }
}

/// A label can be written when its encoding takes 1 to 63 bytes.
pub open spec fn label_fits(label: Seq<char>) -> bool {
    1 <= encode_utf8(label).len() <= 63
}

/// Whether every label of a name can be written.
pub open spec fn labels_fit(name: Seq<Seq<char>>) -> bool {
    forall|i: int| 0 <= i < name.len() ==> label_fits(#[trigger] name[i])
}

/// The uncompressed wire form of a name: each label behind its length byte,
/// then a zero byte.
pub open spec fn name_wire(name: Seq<Seq<char>>) -> Seq<u8>
    decreases name.len(),
{
    if name.len() == 0 {
        seq![0u8]
    } else {
        let b = encode_utf8(name[0]);
        seq![b.len() as u8] + b + name_wire(name.drop_first())
    }
}

/// The bytes a name encodes to, or why it cannot be encoded.
pub open spec fn name_encoding(name: Seq<Seq<char>>) -> Result<Seq<u8>, EncodeError> {
    if labels_fit(name) {
        Ok(name_wire(name))
    } else {
        Err(EncodeError::LabelLength)
    }
}

/// Appends the uncompressed wire form of `name` to `w`. On error nothing is
/// written.
pub fn pack(name: &Vec<String>, w: &mut Vec<u8>) -> (r: Result<(), EncodeError>)
    ensures
        match name_encoding(labels_view(name@)) {
            Ok(bytes) => r is Ok && final(w)@ == old(w)@ + bytes,
            Err(e) => r == Err::<(), EncodeError>(e) && final(w)@ == old(w)@,
        },
{
    let ghost v = labels_view(name@);
    let mut i: usize = 0;
    while i < name.len()
        invariant
            v == labels_view(name@),
            i <= name.len(),
            forall|j: int| 0 <= j < i ==> label_fits(#[trigger] v[j]),
        decreases name.len() - i,
    {
        let b = name[i].as_str().as_bytes();
        if b.len() == 0 || b.len() > 63 {
            assert(!label_fits(v[i as int]));
            return Err(EncodeError::LabelLength);
        }
        i = i + 1;
    }
    assert(v.subrange(0, v.len() as int) =~= v);
    let mut i: usize = 0;
    while i < name.len()
        invariant
            v == labels_view(name@),
            labels_fit(v),
            i <= name.len(),
            old(w)@ + name_wire(v) == w@ + name_wire(v.subrange(i as int, v.len() as int)),
        decreases name.len() - i,
    {
        let b = name[i].as_str().as_bytes();
        assert(label_fits(v[i as int]));
        let ghost before = w@;
        w.push(b.len() as u8);
        w.extend_from_slice(b);
        proof {
            let tail = v.subrange(i as int, v.len() as int);
            assert(tail.drop_first() =~= v.subrange(i + 1, v.len() as int));
            assert(tail[0] == v[i as int]);
            assert(w@ =~= before + seq![b@.len() as u8] + b@);
            assert(w@ + name_wire(v.subrange(i + 1, v.len() as int)) =~= before + name_wire(
                tail,
            ));
        }
        i = i + 1;
    }
    w.push(0u8);
    assert(v.subrange(name.len() as int, v.len() as int) =~= Seq::<Seq<char>>::empty());
    Ok(())
}

/// A name written in full decodes back to its labels, wherever it stands in a
/// buffer and whatever segment start is in force, and ends where its bytes end.
pub proof fn lemma_name_wire_decodes(buf: Seq<u8>, start: int, pos: int, name: Seq<Seq<char>>)
    requires
        0 <= start <= pos,
        labels_fit(name),
        pos + name_wire(name).len() <= buf.len(),
        buf.subrange(pos, pos + name_wire(name).len()) == name_wire(name),
    ensures
        name_from(buf, start, pos) == Ok::<_, DecodeError>(
            (name, pos + name_wire(name).len()),
        ),
    decreases name.len(),
{
    let w = name_wire(name);
    assert(buf[pos] == buf.subrange(pos, pos + w.len())[0]);
    if name.len() == 0 {
        assert(name =~= seq![]);
    } else {
        let b = encode_utf8(name[0]);
        let rest = name.drop_first();
        let end = pos + 1 + b.len();
        let rw = name_wire(rest);
        assert(label_fits(name[0]));
        assert(w =~= seq![b.len() as u8] + b + rw);
        assert(labels_fit(rest)) by {
            assert forall|i: int| 0 <= i < rest.len() implies label_fits(#[trigger] rest[i]) by {
                assert(rest[i] == name[i + 1]);
            }
        }
        assert(buf.subrange(pos + 1, end) =~= b) by {
            assert forall|k: int| 0 <= k < b.len() implies buf.subrange(pos + 1, end)[k] == b[k] by {
                assert(buf.subrange(pos, pos + w.len())[1 + k] == w[1 + k]);
            }
        }
        assert(buf.subrange(end, end + rw.len()) =~= rw) by {
            assert forall|k: int| 0 <= k < rw.len() implies buf.subrange(end, end + rw.len())[k]
                == rw[k] by {
                assert(buf.subrange(pos, pos + w.len())[1 + b.len() + k] == w[1 + b.len() + k]);
            }
        }
        encode_utf8_valid_utf8(name[0]);
        encode_utf8_decode_utf8(name[0]);
        lemma_name_wire_decodes(buf, start, end, rest);
        assert(seq![name[0]] + rest =~= name);
    }
}

/// The target of the compression pointer at `pos`, if a pointer stands there.
pub open spec fn pointer_at(buf: Seq<u8>, pos: int) -> Option<int> {
    if 0 <= pos && pos + 2 <= buf.len() && buf[pos] >= 192 {
        Some((buf[pos] - 192) * 256 + buf[pos + 1])
    } else {
        None
    }
}

/// A compression pointer that points at itself is rejected as a malformed
/// name.
pub proof fn lemma_self_pointer_rejected(buf: Seq<u8>, pos: int)
    requires
        pointer_at(buf, pos) == Some(pos),
    ensures
        name_at(buf, pos) == Err::<(Seq<Seq<char>>, int), DecodeError>(DecodeError::MalformedName),
{
}

/// Two compression pointers that point at each other are rejected as a
/// malformed name, whichever of them is read first.
pub proof fn lemma_pointer_loop_rejected(buf: Seq<u8>, p: int, q: int)
    requires
        pointer_at(buf, p) == Some(q),
        pointer_at(buf, q) == Some(p),
    ensures
        name_at(buf, p) == Err::<(Seq<Seq<char>>, int), DecodeError>(DecodeError::MalformedName),
        name_at(buf, q) == Err::<(Seq<Seq<char>>, int), DecodeError>(DecodeError::MalformedName),
{
    reveal_with_fuel(name_from, 2);
}

} // verus!
