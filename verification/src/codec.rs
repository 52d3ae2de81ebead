//! The stored form of a proposal.
//!
//! A record is a header of 25 bytes (the activity flag, the three tallies, the
//! lengths of the owner and of the description in bytes, and the number of
//! voters, each number as four little-endian bytes), followed by the owner, the
//! description in UTF-8, and the voters, each behind its own four-byte length.

use vstd::prelude::*;
use vstd::bytes::{
    lemma_auto_spec_u32_to_from_le_bytes, spec_u32_from_le_bytes, spec_u32_to_le_bytes, u32_from_le_bytes,
    u32_to_le_bytes,
};
use vstd::utf8::{decode_utf8, encode_utf8, valid_utf8};
use vstd::slice::{slice_subrange, slice_to_vec};
use crate::proposal::{
    all_distinct, ids_len, ids_view, lemma_ids_len_lower, Proposal, ProposalModel, HEADER_LEN,
};
use crate::table::MAX_VALUE_SIZE;

verus! {

/// A number below 2^32 as four little-endian bytes.
pub open spec fn u32_bytes(n: int) -> Seq<u8> {
    spec_u32_to_le_bytes(n as u32)
}

/// The number that the four bytes from `at` on hold.
pub open spec fn read_u32(bytes: Seq<u8>, at: int) -> int {
    spec_u32_from_le_bytes(bytes.subrange(at, at + 4)) as int
}

/// The stored form of a list of identities.
pub open spec fn encode_ids(ids: Seq<Seq<u8>>) -> Seq<u8>
    decreases ids.len(),
{
    if ids.len() == 0 {
        Seq::empty()
    } else {
        u32_bytes(ids[0].len() as int) + ids[0] + encode_ids(ids.skip(1))
    }
}

/// The `count` identities that `bytes` holds, if it holds exactly that many
/// and nothing else.
pub open spec fn decode_ids(bytes: Seq<u8>, count: nat) -> Option<Seq<Seq<u8>>>
    decreases count,
{
    if count == 0 {
        if bytes.len() == 0 {
            Some(Seq::empty())
        } else {
            None
        }
    } else if bytes.len() < 4 || bytes.len() < 4 + read_u32(bytes, 0) {
        None
    } else {
        let n = read_u32(bytes, 0);
        prepend(seq![bytes.subrange(4, 4 + n)], decode_ids(bytes.skip(4 + n), (count - 1) as nat))
    }
}

/// `head` in front of `rest`, where there is a rest.
pub open spec fn prepend(head: Seq<Seq<u8>>, rest: Option<Seq<Seq<u8>>>) -> Option<Seq<Seq<u8>>> {
    match rest {
        Some(ids) => Some(head + ids),
        None => None,
    }
}

/// The header of a record.
pub open spec fn encode_header(p: ProposalModel) -> Seq<u8> {
    seq![if p.is_active { 1u8 } else { 0u8 }]
        + u32_bytes(p.approve as int) + u32_bytes(p.reject as int) + u32_bytes(p.pass as int)
        + u32_bytes(p.owner.len() as int) + u32_bytes(encode_utf8(p.description).len() as int)
        + u32_bytes(p.voted.len() as int)
}

/// The stored form of a proposal.
pub open spec fn encode(p: ProposalModel) -> Seq<u8> {
    encode_header(p) + p.owner + encode_utf8(p.description) + encode_ids(p.voted)
}

/// The proposal that `bytes` spells out, whatever its tallies.
pub open spec fn parse(bytes: Seq<u8>) -> Option<ProposalModel> {
    if bytes.len() < HEADER_LEN || bytes.len() > MAX_VALUE_SIZE || bytes[0] > 1 {
        None
    } else {
        let owner_len = read_u32(bytes, 13);
        let text_len = read_u32(bytes, 17);
        let text = bytes.subrange(HEADER_LEN + owner_len, HEADER_LEN + owner_len + text_len);
        if bytes.len() < HEADER_LEN + owner_len + text_len || !valid_utf8(text) {
            None
        } else {
            match decode_ids(bytes.skip(HEADER_LEN + owner_len + text_len), read_u32(bytes, 21) as nat) {
                Some(voted) => Some(
                    ProposalModel {
                        description: decode_utf8(text),
                        approve: read_u32(bytes, 1) as nat,
                        reject: read_u32(bytes, 5) as nat,
                        pass: read_u32(bytes, 9) as nat,
                        is_active: bytes[0] == 1,
                        voted,
                        owner: bytes.subrange(HEADER_LEN as int, HEADER_LEN + owner_len),
                    },
                ),
                None => None,
            }
        }
    }
}

/// The proposal that `bytes` stores: what it spells out, provided that every
/// voter is tallied once and none occurs twice.
pub open spec fn decode(bytes: Seq<u8>) -> Option<ProposalModel> {
    match parse(bytes) {
        Some(p) => if p.tallied() && p.voted.no_duplicates() {
            Some(p)
        } else {
            None
        },
        None => None,
    }
}

/// The stored form of a list of identities is as long as [`ids_len`] says.
pub proof fn lemma_encode_ids_len(ids: Seq<Seq<u8>>)
    ensures
        encode_ids(ids).len() == ids_len(ids),
    decreases ids.len(),
{
    lemma_auto_spec_u32_to_from_le_bytes();
    if ids.len() > 0 {
        lemma_encode_ids_len(ids.skip(1));
    }
}

/// The stored form of a proposal is as long as `encoded_len` says.
pub proof fn lemma_encode_len(p: ProposalModel)
    ensures
        encode_header(p).len() == HEADER_LEN,
        encode(p).len() == p.encoded_len(),
{
    lemma_auto_spec_u32_to_from_le_bytes();
    lemma_encode_ids_len(p.voted);
}

/// Identities that were read back take exactly the bytes they were read from.
pub proof fn lemma_decode_ids_len(bytes: Seq<u8>, count: nat)
    ensures
        decode_ids(bytes, count) matches Some(ids) ==> ids.len() == count && ids_len(ids) == bytes.len(),
    decreases count,
{
    if count > 0 && bytes.len() >= 4 && bytes.len() >= 4 + read_u32(bytes, 0) {
        let n = read_u32(bytes, 0);
        let rest = decode_ids(bytes.skip(4 + n), (count - 1) as nat);
        lemma_decode_ids_len(bytes.skip(4 + n), (count - 1) as nat);
        if let Some(tail) = rest {
            let ids = seq![bytes.subrange(4, 4 + n)] + tail;
            assert(ids.skip(1) =~= tail);
            assert(ids[0] == bytes.subrange(4, 4 + n));
        }
    }
}

/// Reading back the stored form of a list of identities gives the list.
pub proof fn lemma_decode_encode_ids(ids: Seq<Seq<u8>>)
    requires
        ids_len(ids) <= MAX_VALUE_SIZE,
    ensures
        decode_ids(encode_ids(ids), ids.len()) == Some(ids),
    decreases ids.len(),
{
    lemma_auto_spec_u32_to_from_le_bytes();
    if ids.len() > 0 {
        let bytes = encode_ids(ids);
        let n = ids[0].len() as int;
        lemma_decode_encode_ids(ids.skip(1));
        lemma_encode_ids_len(ids.skip(1));
        assert(bytes.subrange(0, 4) =~= u32_bytes(n));
        assert(read_u32(bytes, 0) == n);
        assert(bytes.subrange(4, 4 + n) =~= ids[0]);
        assert(bytes.skip(4 + n) =~= encode_ids(ids.skip(1)));
        assert(seq![ids[0]] + ids.skip(1) =~= ids);
    }
}

/// A record that can be read is valid, and as long as `encoded_len` says.
pub proof fn lemma_decode_valid(bytes: Seq<u8>)
    ensures
        decode(bytes) matches Some(p) ==> p.valid() && p.encoded_len() == bytes.len(),
{
    if let Some(p) = decode(bytes) {
        let owner_len = read_u32(bytes, 13);
        let text_len = read_u32(bytes, 17);
        let text = bytes.subrange(HEADER_LEN + owner_len, HEADER_LEN + owner_len + text_len);
        lemma_decode_ids_len(bytes.skip(HEADER_LEN + owner_len + text_len), read_u32(bytes, 21) as nat);
        vstd::utf8::decode_utf8_encode_utf8(text);
    }
}

/// Identities that were read back are stored as the very bytes they were
/// read from.
pub proof fn lemma_encode_decode_ids(bytes: Seq<u8>, count: nat)
    ensures
        decode_ids(bytes, count) matches Some(ids) ==> encode_ids(ids) == bytes,
    decreases count,
{
    lemma_auto_spec_u32_to_from_le_bytes();
    if let Some(ids) = decode_ids(bytes, count) {
        if count == 0 {
            assert(encode_ids(ids) =~= bytes);
        } else {
            let n = read_u32(bytes, 0);
            let tail = decode_ids(bytes.skip(4 + n), (count - 1) as nat).unwrap();
            lemma_encode_decode_ids(bytes.skip(4 + n), (count - 1) as nat);
            assert(ids =~= seq![bytes.subrange(4, 4 + n)] + tail);
            assert(ids.skip(1) =~= tail);
            assert(ids[0] == bytes.subrange(4, 4 + n));
            assert(u32_bytes(ids[0].len() as int) == bytes.subrange(0, 4));
            assert(encode_ids(ids) =~= bytes);
        }
    }
}

/// A record that can be read is the stored form of the proposal read from it:
/// no two records store the same proposal.
pub proof fn lemma_encode_decode(bytes: Seq<u8>)
    ensures
        decode(bytes) matches Some(p) ==> encode(p) == bytes,
{
    lemma_auto_spec_u32_to_from_le_bytes();
    if let Some(p) = decode(bytes) {
        let owner_len = read_u32(bytes, 13);
        let text_len = read_u32(bytes, 17);
        let start = HEADER_LEN + owner_len + text_len;
        let text = bytes.subrange(HEADER_LEN + owner_len, start);
        lemma_encode_decode_ids(bytes.skip(start), read_u32(bytes, 21) as nat);
        lemma_decode_ids_len(bytes.skip(start), read_u32(bytes, 21) as nat);
        vstd::utf8::decode_utf8_encode_utf8(text);
        assert(u32_bytes(p.approve as int) == bytes.subrange(1, 5));
        assert(u32_bytes(p.reject as int) == bytes.subrange(5, 9));
        assert(u32_bytes(p.pass as int) == bytes.subrange(9, 13));
        assert(u32_bytes(p.owner.len() as int) == bytes.subrange(13, 17));
        assert(u32_bytes(encode_utf8(p.description).len() as int) == bytes.subrange(17, 21));
        assert(u32_bytes(p.voted.len() as int) == bytes.subrange(21, 25));
        assert(encode_header(p) =~= bytes.subrange(0, HEADER_LEN as int));
        assert(encode(p) =~= bytes);
    }
}

/// Reading back the stored form of a valid proposal gives the proposal.
pub proof fn lemma_decode_encode(p: ProposalModel)
    requires
        p.valid(),
    ensures
        decode(encode(p)) == Some(p),
{
    lemma_auto_spec_u32_to_from_le_bytes();
    lemma_encode_len(p);
    lemma_ids_len_lower(p.voted);
    lemma_decode_encode_ids(p.voted);
    vstd::utf8::encode_utf8_valid_utf8(p.description);
    vstd::utf8::encode_utf8_decode_utf8(p.description);
    let bytes = encode(p);
    let header = encode_header(p);
    let text = encode_utf8(p.description);
    let owner_len = p.owner.len() as int;
    let text_len = text.len() as int;
    assert(bytes.subrange(0, HEADER_LEN as int) =~= header);
    assert(bytes[0] == header[0]);
    assert(bytes.subrange(1, 5) =~= u32_bytes(p.approve as int));
    assert(bytes.subrange(5, 9) =~= u32_bytes(p.reject as int));
    assert(bytes.subrange(9, 13) =~= u32_bytes(p.pass as int));
    assert(bytes.subrange(13, 17) =~= u32_bytes(owner_len));
    assert(bytes.subrange(17, 21) =~= u32_bytes(text_len));
    assert(bytes.subrange(21, 25) =~= u32_bytes(p.voted.len() as int));
    assert(bytes.subrange(HEADER_LEN as int, HEADER_LEN + owner_len) =~= p.owner);
    assert(bytes.subrange(HEADER_LEN + owner_len, HEADER_LEN + owner_len + text_len) =~= text);
    assert(bytes.skip(HEADER_LEN + owner_len + text_len) =~= encode_ids(p.voted));
    let q = parse(bytes).unwrap();
    assert(q.voted == p.voted);
    assert(q.description == p.description);
    assert(q.owner == p.owner);
}

/// `String::from_utf8`: the text that `bytes` spells in UTF-8, if they are
/// valid UTF-8, and nothing otherwise.
#[verifier::external_body]
fn text_from_utf8(bytes: Vec<u8>) -> (text: Option<String>)
    ensures
        text.is_some() == valid_utf8(bytes@),
        text matches Some(s) ==> s@ == decode_utf8(bytes@),
{
    match String::from_utf8(bytes) {
        Ok(s) => Some(s),
        Err(_) => None,
    }
}

impl Proposal {
    /// The stored form of the proposal, or nothing where it would take more
    /// than [`MAX_VALUE_SIZE`] bytes.
    pub fn to_bytes(&self) -> (stored: Option<Vec<u8>>)
        ensures
            stored.is_some() == self@.fits(),
            stored matches Some(bytes) ==> bytes@ == encode(self@),
    {
        let text = self.description.as_str().as_bytes();
        proof {
            lemma_encode_len(self@);
            lemma_ids_len_lower(self@.voted);
            lemma_auto_spec_u32_to_from_le_bytes();
        }
        if self.owner.len() > MAX_VALUE_SIZE || text.len() > MAX_VALUE_SIZE
            || self.voted.len() > MAX_VALUE_SIZE {
            return None;
        }
        let mut out: Vec<u8> = Vec::new();
        out.push(if self.is_active { 1u8 } else { 0u8 });
        let mut field = u32_to_le_bytes(self.approve);
        out.append(&mut field);
        field = u32_to_le_bytes(self.reject);
        out.append(&mut field);
        field = u32_to_le_bytes(self.pass);
        out.append(&mut field);
        field = u32_to_le_bytes(self.owner.len() as u32);
        out.append(&mut field);
        field = u32_to_le_bytes(text.len() as u32);
        out.append(&mut field);
        field = u32_to_le_bytes(self.voted.len() as u32);
        out.append(&mut field);
        assert(out@ =~= encode_header(self@));
        out.extend_from_slice(self.owner.as_slice());
        out.extend_from_slice(text);
        let ghost ids = self@.voted;
        assert(out@ =~= encode_header(self@) + self@.owner + encode_utf8(self@.description));
        assert(ids.skip(0) =~= ids);
        let mut i: usize = 0;
        while i < self.voted.len()
            invariant
                i <= self.voted.len(),
                ids == ids_view(self.voted@),
                out@ + encode_ids(ids.skip(i as int)) == encode(self@),
                encode(self@).len() == self@.encoded_len(),
            decreases self.voted.len() - i,
        {
            let id = &self.voted[i];
            proof {
                lemma_auto_spec_u32_to_from_le_bytes();
                assert(ids.skip(i as int)[0] == id@);
                assert(ids.skip(i as int).skip(1) =~= ids.skip(i + 1));
            }
            if id.len() > MAX_VALUE_SIZE || out.len() > MAX_VALUE_SIZE {
                return None;
            }
            let ghost before = out@;
            field = u32_to_le_bytes(id.len() as u32);
            out.append(&mut field);
            out.extend_from_slice(id.as_slice());
            assert(out@ =~= before + (u32_bytes(id@.len() as int) + id@));
            assert(out@ + encode_ids(ids.skip(i + 1)) =~= before + encode_ids(ids.skip(i as int)));
            i += 1;
        }
        assert(out@ =~= encode(self@));
        if out.len() > MAX_VALUE_SIZE {
            None
        } else {
            Some(out)
        }
    }

    /// The proposal that `bytes` stores, if they store one.
    pub fn from_bytes(bytes: &Vec<u8>) -> (found: Option<Proposal>)
        ensures
            found.is_some() == decode(bytes@).is_some(),
            found matches Some(p) ==> decode(bytes@) == Some(p@),
    {
        let len = bytes.len();
        if len < HEADER_LEN || len > MAX_VALUE_SIZE || bytes[0] > 1 {
            return None;
        }
        let raw = bytes.as_slice();
        let approve = u32_from_le_bytes(slice_subrange(raw, 1, 5));
        let reject = u32_from_le_bytes(slice_subrange(raw, 5, 9));
        let pass = u32_from_le_bytes(slice_subrange(raw, 9, 13));
        let owner_len = u32_from_le_bytes(slice_subrange(raw, 13, 17)) as usize;
        let text_len = u32_from_le_bytes(slice_subrange(raw, 17, 21)) as usize;
        let count = u32_from_le_bytes(slice_subrange(raw, 21, 25)) as usize;
        if owner_len > len - HEADER_LEN || text_len > len - HEADER_LEN - owner_len {
            return None;
        }
        let owner = slice_to_vec(slice_subrange(raw, HEADER_LEN, HEADER_LEN + owner_len));
        let start = HEADER_LEN + owner_len + text_len;
        let text = slice_to_vec(slice_subrange(raw, HEADER_LEN + owner_len, start));
        let description = match text_from_utf8(text) {
            Some(s) => s,
            None => {
                return None;
            },
        };
        let mut voted: Vec<Vec<u8>> = Vec::new();
        let mut pos = start;
        let mut i: usize = 0;
        assert(ids_view(voted@) =~= Seq::<Seq<u8>>::empty());
        assert(prepend(ids_view(voted@), decode_ids(bytes@.skip(pos as int), count as nat))
            =~= decode_ids(bytes@.skip(start as int), count as nat)) by {
            let rest = decode_ids(bytes@.skip(pos as int), count as nat);
            if let Some(tail) = rest {
                assert(ids_view(voted@) + tail =~= tail);
            }
        }
        while i < count
            invariant
                i <= count,
                start <= pos <= len,
                len == bytes@.len(),
                raw@ == bytes@,
                decode_ids(bytes@.skip(start as int), count as nat) is None ==> decode(bytes@) is None,
                decode_ids(bytes@.skip(start as int), count as nat) == prepend(
                    ids_view(voted@),
                    decode_ids(bytes@.skip(pos as int), (count - i) as nat),
                ),
            decreases count - i,
        {
            let ghost here = bytes@.skip(pos as int);
            let ghost so_far = ids_view(voted@);
            if len - pos < 4 {
                return None;
            }
            let n = u32_from_le_bytes(slice_subrange(raw, pos, pos + 4)) as usize;
            assert(here.subrange(0, 4) =~= bytes@.subrange(pos as int, pos + 4));
            if n > len - pos - 4 {
                return None;
            }
            let id = slice_to_vec(slice_subrange(raw, pos + 4, pos + 4 + n));
            assert(here.subrange(4, 4 + n) =~= id@);
            assert(here.skip(4 + n) =~= bytes@.skip(pos + 4 + n));
            voted.push(id);
            proof {
                let rest = decode_ids(bytes@.skip(pos + 4 + n), (count - i - 1) as nat);
                assert(ids_view(voted@) =~= so_far.push(id@));
                if let Some(tail) = rest {
                    assert(so_far + (seq![id@] + tail) =~= so_far.push(id@) + tail);
                }
            }
            pos = pos + 4 + n;
            i += 1;
        }
        if pos != len {
            return None;
        }
        assert(bytes@.skip(pos as int) =~= Seq::<u8>::empty());
        assert(ids_view(voted@) + Seq::<Seq<u8>>::empty() =~= ids_view(voted@));
        if approve as u64 + reject as u64 + pass as u64 != voted.len() as u64 {
            return None;
        }
        if !all_distinct(&voted) {
            return None;
        }
        Some(Proposal { description, approve, reject, pass, is_active: bytes[0] == 1, voted, owner })
    }
}

} // verus!
