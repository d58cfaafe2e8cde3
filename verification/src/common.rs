//! The wire codec: a `Transfer` record `{from, to, content}` is framed as
//! `from`, `to` and `content` joined by single newline bytes. The decoder
//! splits at the first two delimiter bytes and takes the whole remainder as
//! the content, so content round-trips as the exact bytes supplied, even when
//! it holds the delimiter itself. Identities must stay delimiter-free; the
//! round-trip law below is proved for every such record.

use vstd::prelude::*;

verus! {

/// The byte that separates the three parts of an encoded `Transfer`.
pub const DELIMITER: u8 = 10;

/// A request to the registry to move a session from one identity to another.
#[derive(Debug, PartialEq, Eq)]
pub enum ClientChange {
    UpdateEmail(Vec<u8>, Vec<u8>),
}

/// Why the registry refused an identity change.
#[derive(Debug, Clone, Copy, PartialEq, Eq)]
pub enum ClientChangeError {
    NewEmailAlreadyExisted,
}

/// Why a `Transfer` could not be routed or decoded.
#[derive(Debug, Clone, Copy, PartialEq, Eq)]
pub enum TransferError {
    DestinationClientOffline,
    ContentNotUTF8,
    ConvertFromBytesFail,
}

/// A request to shut a session or the registry down.
pub struct Stop;

/// One application message: `content` travels from the `from` identity to the
/// `to` identity. Content bytes pass through the codec unchanged.
#[derive(Debug, Clone, PartialEq, Eq)]
pub struct Transfer {
    pub from: Vec<u8>,
    pub to: Vec<u8>,
    pub content: Vec<u8>,
}

/// The mathematical value of a `Transfer`: its three parts as byte sequences.
pub struct TransferView {
    pub from: Seq<u8>,
    pub to: Seq<u8>,
    pub content: Seq<u8>,
}

impl View for Transfer {
    type V = TransferView;

    open spec fn view(&self) -> TransferView {
        TransferView { from: self.from@, to: self.to@, content: self.content@ }
    }
}

/// The encoded form of a record: the three parts joined by the delimiter.
pub open spec fn spec_encode(t: TransferView) -> Seq<u8> {
    t.from + seq![DELIMITER] + t.to + seq![DELIMITER] + t.content
}

/// The part before the first delimiter and everything after it, or `None`
/// when the buffer holds no delimiter.
pub open spec fn split_first(s: Seq<u8>) -> Option<(Seq<u8>, Seq<u8>)>
    decreases s.len(),
{
    if s.len() == 0 {
        None
    } else if s.first() == DELIMITER {
        Some((Seq::<u8>::empty(), s.drop_first()))
    } else {
        match split_first(s.drop_first()) {
            None => None,
            Some(pr) => Some((seq![s.first()] + pr.0, pr.1)),
        }
    }
}

/// Decoding: `from` and `to` end at the first two delimiter bytes, and the
/// whole remainder — delimiters included — is the content. A buffer with
/// fewer than two delimiters does not decode.
pub open spec fn spec_decode(s: Seq<u8>) -> Option<TransferView> {
    match split_first(s) {
        None => None,
        Some(fr) => match split_first(fr.1) {
            None => None,
            Some(tc) => Some(TransferView { from: fr.0, to: tc.0, content: tc.1 }),
        },
    }
}

/// A delimiter-free buffer has no first part to split off.
pub proof fn lemma_split_first_none(s: Seq<u8>)
    requires
        !s.contains(DELIMITER),
    ensures
        split_first(s) == None::<(Seq<u8>, Seq<u8>)>,
    decreases s.len(),
{
    if s.len() > 0 {
        assert(s[0] != DELIMITER);
        assert(!s.drop_first().contains(DELIMITER)) by {
            if s.drop_first().contains(DELIMITER) {
                let i = choose|i: int|
                    0 <= i < s.drop_first().len() && s.drop_first()[i] == DELIMITER;
                assert(s[i + 1] == DELIMITER);
            }
        }
        lemma_split_first_none(s.drop_first());
    }
}

/// Splitting `a + delimiter + rest` for delimiter-free `a` yields `a` and
/// `rest`, whatever `rest` holds.
pub proof fn lemma_split_first_concat(a: Seq<u8>, rest: Seq<u8>)
    requires
        !a.contains(DELIMITER),
    ensures
        split_first(a + seq![DELIMITER] + rest) == Some((a, rest)),
    decreases a.len(),
{
    let s = a + seq![DELIMITER] + rest;
    if a.len() == 0 {
        assert(s.first() == DELIMITER);
        assert(s.drop_first() =~= rest);
        assert(Seq::<u8>::empty() =~= a);
    } else {
        assert(a[0] != DELIMITER);
        assert(s.first() == a.first());
        let a1 = a.drop_first();
        assert(!a1.contains(DELIMITER)) by {
            if a1.contains(DELIMITER) {
                let i = choose|i: int| 0 <= i < a1.len() && a1[i] == DELIMITER;
                assert(a[i + 1] == DELIMITER);
            }
        }
        lemma_split_first_concat(a1, rest);
        assert(s.drop_first() =~= a1 + seq![DELIMITER] + rest);
        assert(seq![s.first()] + a1 =~= a);
    }
}

/// The first part ends exactly at the first delimiter.
proof fn lemma_split_first_at(s: Seq<u8>, i: int)
    requires
        0 <= i < s.len(),
        s[i] == DELIMITER,
        forall|k: int| 0 <= k < i ==> s[k] != DELIMITER,
    ensures
        split_first(s) == Some((s.take(i), s.skip(i + 1))),
{
    assert(!s.take(i).contains(DELIMITER)) by {
        if s.take(i).contains(DELIMITER) {
            let k = choose|k: int| 0 <= k < s.take(i).len() && s.take(i)[k] == DELIMITER;
            assert(s[k] == DELIMITER);
        }
    }
    assert(s =~= s.take(i) + seq![DELIMITER] + s.skip(i + 1));
    lemma_split_first_concat(s.take(i), s.skip(i + 1));
}

/// Round trip: a record whose identities are delimiter-free decodes back
/// from its own encoding, for every content.
pub proof fn lemma_round_trip(t: TransferView)
    requires
        !t.from.contains(DELIMITER),
        !t.to.contains(DELIMITER),
    ensures
        spec_decode(spec_encode(t)) == Some(t),
{
    let tail = t.to + seq![DELIMITER] + t.content;
    assert(spec_encode(t) =~= t.from + seq![DELIMITER] + tail);
    lemma_split_first_concat(t.from, tail);
    lemma_split_first_concat(t.to, t.content);
}

/// Compares two byte buffers for equality of contents.
pub fn bytes_eq(a: &Vec<u8>, b: &Vec<u8>) -> (r: bool)
    ensures
        r == (a@ == b@),
{
    if a.len() != b.len() {
        return false;
    }
    let mut i: usize = 0;
    while i < a.len()
        invariant
            i <= a@.len(),
            a@.len() == b@.len(),
            forall|j: int| 0 <= j < i ==> a@[j] == b@[j],
        decreases a@.len() - i,
    {
        if a[i] != b[i] {
            return false;
        }
        i += 1;
    }
    proof {
        assert(a@ =~= b@);
    }
    true
}

/// Copies `src` onto the end of `dst`.
pub fn push_all(dst: Vec<u8>, src: &Vec<u8>) -> (r: Vec<u8>)
    ensures
        r@ == dst@ + src@,
{
    let mut out = dst;
    let mut i: usize = 0;
    while i < src.len()
        invariant
            i <= src.len(),
            out@ == dst@ + src@.take(i as int),
        decreases src.len() - i,
    {
        out.push(src[i]);
        proof {
            assert(dst@ + src@.take(i as int) + seq![src@[i as int]] =~= dst@ + src@.take(
                i as int + 1,
            ));
        }
        i += 1;
    }
    proof {
        assert(dst@ + src@.take(src@.len() as int) =~= dst@ + src@);
    }
    out
}

/// Finds the first delimiter byte at or after `start`.
fn find_delim(bytes: &Vec<u8>, start: usize) -> (r: Option<usize>)
    requires
        start <= bytes@.len(),
    ensures
        match r {
            Some(j) => start <= j < bytes@.len() && bytes@[j as int] == DELIMITER && forall|k: int|
                start <= k < j ==> bytes@[k] != DELIMITER,
            None => forall|k: int| start <= k < bytes@.len() ==> bytes@[k] != DELIMITER,
        },
{
    let mut i: usize = start;
    while i < bytes.len()
        invariant
            start <= i <= bytes@.len(),
            forall|k: int| start <= k < i ==> bytes@[k] != DELIMITER,
        decreases bytes@.len() - i,
    {
        if bytes[i] == DELIMITER {
            return Some(i);
        }
        i += 1;
    }
    None
}

/// Whether a buffer holds the delimiter byte.
pub fn contains_delim(bytes: &Vec<u8>) -> (r: bool)
    ensures
        r == bytes@.contains(DELIMITER),
{
    match find_delim(bytes, 0) {
        Some(_) => true,
        None => {
            proof {
                if bytes@.contains(DELIMITER) {
                    let k = choose|k: int| 0 <= k < bytes@.len() && bytes@[k] == DELIMITER;
                }
            }
            false
        },
    }
}

/// Copies `src[start..end]` into a fresh buffer.
fn copy_range(src: &Vec<u8>, start: usize, end: usize) -> (r: Vec<u8>)
    requires
        start <= end,
        end <= src@.len(),
    ensures
        r@ == src@.subrange(start as int, end as int),
{
    let mut out: Vec<u8> = Vec::new();
    let mut i: usize = start;
    proof {
        assert(out@ =~= src@.subrange(start as int, start as int));
    }
    while i < end
        invariant
            start <= i <= end,
            end <= src@.len(),
            out@ == src@.subrange(start as int, i as int),
        decreases end - i,
    {
        out.push(src[i]);
        proof {
            assert(src@.subrange(start as int, i as int).push(src@[i as int]) =~= src@.subrange(
                start as int,
                i as int + 1,
            ));
        }
        i += 1;
    }
    out
}

impl Transfer {
    /// Encodes the record for the wire: `from`, `to` and `content` joined by
    /// the delimiter byte. Callers must keep identities delimiter-free for
    /// the result to be decodable; the content may be any bytes.
    pub fn to_bytes(self) -> (r: Vec<u8>)
        ensures
            r@ == spec_encode(self@),
    {
        let mut out: Vec<u8> = Vec::new();
        out = push_all(out, &self.from);
        out.push(DELIMITER);
        out = push_all(out, &self.to);
        out.push(DELIMITER);
        out = push_all(out, &self.content);
        proof {
            assert(out@ =~= spec_encode(self@));
        }
        out
    }

    /// Decodes a wire buffer: `from` and `to` end at the first two delimiter
    /// bytes, the remainder is the content unchanged. Fails with
    /// `ConvertFromBytesFail` exactly when the buffer holds fewer than two
    /// delimiters.
    pub fn try_from_bytes(bytes: &Vec<u8>) -> (r: Result<Transfer, TransferError>)
        ensures
            match spec_decode(bytes@) {
                Some(tv) => r matches Ok(t) && t@ == tv,
                None => r == Err::<Transfer, TransferError>(TransferError::ConvertFromBytesFail),
            },
    {
        let n = bytes.len();
        let i = match find_delim(bytes, 0) {
            Some(i) => i,
            None => {
                proof {
                    assert(!bytes@.contains(DELIMITER)) by {
                        if bytes@.contains(DELIMITER) {
                            let k = choose|k: int|
                                0 <= k < bytes@.len() && bytes@[k] == DELIMITER;
                        }
                    }
                    lemma_split_first_none(bytes@);
                }
                return Err(TransferError::ConvertFromBytesFail);
            },
        };
        proof {
            lemma_split_first_at(bytes@, i as int);
        }
        let ghost rest = bytes@.skip(i as int + 1);
        let j = match find_delim(bytes, i + 1) {
            Some(j) => j,
            None => {
                proof {
                    assert(!rest.contains(DELIMITER)) by {
                        if rest.contains(DELIMITER) {
                            let k = choose|k: int| 0 <= k < rest.len() && rest[k] == DELIMITER;
                            assert(bytes@[k + i + 1] == DELIMITER);
                        }
                    }
                    lemma_split_first_none(rest);
                }
                return Err(TransferError::ConvertFromBytesFail);
            },
        };
        proof {
            assert(rest[j - i - 1] == DELIMITER);
            assert(forall|k: int| 0 <= k < j - i - 1 ==> rest[k] != DELIMITER) by {
                assert(forall|k: int| i + 1 <= k < j ==> bytes@[k] != DELIMITER);
            }
            lemma_split_first_at(rest, j - i - 1);
        }
        let from = copy_range(bytes, 0, i);
        let to = copy_range(bytes, i + 1, j);
        let content = copy_range(bytes, j + 1, n);
        proof {
            assert(from@ =~= bytes@.take(i as int));
            assert(to@ =~= rest.take(j - i - 1));
            assert(content@ =~= rest.skip(j - i));
        }
        Ok(Transfer { from, to, content })
    }
}

impl ClientChangeError {
    /// The diagnostic line written back to a peer whose claim was refused.
    pub fn message(&self) -> (r: &'static str)
        ensures
            r@ == "new email already existed"@,
    {
        "new email already existed"
    }
}

impl TransferError {
    /// The diagnostic line written back to a peer for this outcome.
    pub fn message(&self) -> (r: &'static str)
        ensures
            self == TransferError::DestinationClientOffline ==> r@
                == "destination client offline"@,
            self == TransferError::ContentNotUTF8 ==> r@ == "transfer content not UTF-8 encoding"@,
            self == TransferError::ConvertFromBytesFail ==> r@ == "convert from bytes failed"@,
    {
        match self {
            TransferError::DestinationClientOffline => "destination client offline",
            TransferError::ContentNotUTF8 => "transfer content not UTF-8 encoding",
            TransferError::ConvertFromBytesFail => "convert from bytes failed",
        }
    }
}

} // verus!
