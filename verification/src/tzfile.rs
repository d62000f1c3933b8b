//! Decoding of binary time-zone-database transition tables.
//!
//! The version-1, 32-bit layout is decoded: a magic header, six big-endian
//! counts, the transition timestamps, their indices into the local-time-type
//! records, the records themselves, and a table of NUL-separated designation
//! strings. Leap-second records and indicator bytes that may follow are
//! skipped. A malformed buffer is rejected with a [`DecodeError`], never a
//! panic.

use vstd::prelude::*;
use vstd::seq_lib::group_to_multiset_ensures;

verus! {

/// One historical boundary at which a location's offset from UTC changed.
#[derive(Debug)]
pub struct Transition {
    /// UTC seconds since the epoch at which the new offset takes effect.
    pub timestamp: i64,
    /// The offset from UTC, in seconds, in force from this boundary on.
    pub offset_seconds: i32,
    /// Whether the record describes daylight-saving time.
    pub is_dst: bool,
    /// The short textual label of the record, as bytes from the file's
    /// designation table.
    pub designation: Vec<u8>,
}

/// The mathematical model of a transition record.
pub ghost struct TransitionModel {
    pub timestamp: int,
    pub offset_seconds: int,
    pub is_dst: bool,
    pub designation: Seq<u8>,
}

impl View for Transition {
    type V = TransitionModel;

    open spec fn view(&self) -> TransitionModel {
        TransitionModel {
            timestamp: self.timestamp as int,
            offset_seconds: self.offset_seconds as int,
            is_dst: self.is_dst,
            designation: self.designation@,
        }
    }
}

impl DeepView for Transition {
    type V = TransitionModel;

    open spec fn deep_view(&self) -> TransitionModel {
        self.view()
    }
}

/// Why a buffer failed to decode as a transition table.
#[derive(Clone, Copy, Debug, PartialEq, Eq, Structural)]
pub enum DecodeError {
    /// The buffer ends before the layout announced by its counts.
    Truncated,
    /// The buffer does not begin with the format's magic bytes.
    BadMagic,
    /// A record points outside the table it indexes into.
    BadIndex,
}

/// Whether a transition sequence is sorted by timestamp in descending
/// order (ties tolerated).
pub open spec fn sorted_descending(s: Seq<TransitionModel>) -> bool {
    forall|i: int, j: int| 0 <= i <= j < s.len() ==> s[i].timestamp >= s[j].timestamp
}

/// A descending-sorted sequence with pairwise distinct timestamps is
/// sorted strictly descending.
pub proof fn lemma_sorted_distinct_strictly_descending(s: Seq<TransitionModel>)
    requires
        sorted_descending(s),
        forall|i: int, j: int|
            0 <= i < j < s.len() ==> s[i].timestamp != s[j].timestamp,
    ensures
        forall|i: int, j: int| 0 <= i < j < s.len() ==> s[i].timestamp > s[j].timestamp,
{
}

/// The big-endian 32-bit unsigned value at a position of a buffer.
pub open spec fn be_u32(d: Seq<u8>, p: int) -> int {
    (d[p] as int) * 0x100_0000 + (d[p + 1] as int) * 0x1_0000 + (d[p + 2] as int) * 0x100 + (d[p
        + 3] as int)
}

/// The big-endian 32-bit two's-complement value at a position of a buffer.
pub open spec fn be_i32(d: Seq<u8>, p: int) -> int {
    if be_u32(d, p) >= 0x8000_0000 {
        be_u32(d, p) - 0x1_0000_0000
    } else {
        be_u32(d, p)
    }
}

/// Count of transition timestamps the header announces.
pub open spec fn spec_timecnt(d: Seq<u8>) -> int {
    be_u32(d, 32)
}

/// Count of local-time-type records the header announces.
pub open spec fn spec_typecnt(d: Seq<u8>) -> int {
    be_u32(d, 36)
}

/// Length of the designation-string table the header announces.
pub open spec fn spec_charcnt(d: Seq<u8>) -> int {
    be_u32(d, 40)
}

/// Position of the transition-to-type index bytes.
pub open spec fn idx_base(d: Seq<u8>) -> int {
    44 + 4 * spec_timecnt(d)
}

/// Position of the local-time-type records.
pub open spec fn type_base(d: Seq<u8>) -> int {
    idx_base(d) + spec_timecnt(d)
}

/// Position of the designation-string table.
pub open spec fn char_base(d: Seq<u8>) -> int {
    type_base(d) + 6 * spec_typecnt(d)
}

/// Position one past the designation-string table: all the buffer this
/// decoder reads.
pub open spec fn table_end(d: Seq<u8>) -> int {
    char_base(d) + spec_charcnt(d)
}

/// Whether the buffer begins with the format's magic bytes `TZif`.
pub open spec fn magic_ok(d: Seq<u8>) -> bool {
    d[0] == 0x54u8 && d[1] == 0x5au8 && d[2] == 0x69u8 && d[3] == 0x66u8
}

/// The designation-string table of the buffer.
pub open spec fn spec_chars(d: Seq<u8>) -> Seq<u8> {
    d.subrange(char_base(d), table_end(d))
}

/// The type-record index of a transition.
pub open spec fn trans_type_idx(d: Seq<u8>, i: int) -> int {
    d[idx_base(d) + i] as int
}

/// The offset in seconds of a local-time-type record.
pub open spec fn type_offset(d: Seq<u8>, j: int) -> int {
    be_i32(d, type_base(d) + 6 * j)
}

/// The daylight-saving flag of a local-time-type record.
pub open spec fn type_is_dst(d: Seq<u8>, j: int) -> bool {
    d[type_base(d) + 6 * j + 4] != 0
}

/// The designation-table index of a local-time-type record.
pub open spec fn type_desig_idx(d: Seq<u8>, j: int) -> int {
    d[type_base(d) + 6 * j + 5] as int
}

/// Position of the first NUL byte at or after a position, or the length
/// of the sequence when there is none.
pub open spec fn first_nul_from(s: Seq<u8>, from: int) -> int
    decreases (if 0 <= from <= s.len() { s.len() - from } else { 0 }),
{
    if from < 0 || from >= s.len() {
        s.len() as int
    } else if s[from] == 0 {
        from
    } else {
        first_nul_from(s, from + 1)
    }
}

/// The NUL-terminated designation string starting at a position.
pub open spec fn designation_from(s: Seq<u8>, from: int) -> Seq<u8> {
    s.subrange(from, first_nul_from(s, from))
}

/// Whether a transition's indices stay inside the tables they point into:
/// its type index within the type records, and the type's designation
/// index within the string table with a terminating NUL to find.
pub open spec fn transition_ok(d: Seq<u8>, i: int) -> bool {
    let j = trans_type_idx(d, i);
    &&& j < spec_typecnt(d)
    &&& type_desig_idx(d, j) < spec_charcnt(d)
    &&& first_nul_from(spec_chars(d), type_desig_idx(d, j)) < spec_charcnt(d)
}

/// Whether every announced transition decodes cleanly.
pub open spec fn indices_ok(d: Seq<u8>) -> bool {
    forall|i: int| 0 <= i < spec_timecnt(d) ==> transition_ok(d, i)
}

/// The model of the transition a buffer holds at a file-order position.
pub open spec fn spec_transition(d: Seq<u8>, i: int) -> TransitionModel {
    let j = trans_type_idx(d, i);
    TransitionModel {
        timestamp: be_i32(d, 44 + 4 * i),
        offset_seconds: type_offset(d, j),
        is_dst: type_is_dst(d, j),
        designation: designation_from(spec_chars(d), type_desig_idx(d, j)),
    }
}

/// The transition records of a buffer, in file order.
pub open spec fn raw_transitions(d: Seq<u8>) -> Seq<TransitionModel> {
    Seq::new(spec_timecnt(d) as nat, |i: int| spec_transition(d, i))
}

/// What decoding a buffer yields: its transition records in file order,
/// or the first decode failure.
pub open spec fn spec_decode(d: Seq<u8>) -> Result<Seq<TransitionModel>, DecodeError> {
    if d.len() < 44 {
        Err(DecodeError::Truncated)
    } else if !magic_ok(d) {
        Err(DecodeError::BadMagic)
    } else if d.len() < table_end(d) {
        Err(DecodeError::Truncated)
    } else if !indices_ok(d) {
        Err(DecodeError::BadIndex)
    } else {
        Ok(raw_transitions(d))
    }
}

/// A position whose byte is NUL, with none before it from the start
/// position on, is the one the search finds.
proof fn lemma_first_nul_at(s: Seq<u8>, from: int, k: int)
    requires
        0 <= from <= k < s.len(),
        s[k] == 0,
        forall|j: int| from <= j < k ==> s[j] != 0,
    ensures
        first_nul_from(s, from) == k,
    decreases k - from,
{
    if from < k {
        lemma_first_nul_at(s, from + 1, k);
    }
}

/// With no NUL from the start position on, the search runs off the end.
proof fn lemma_first_nul_none(s: Seq<u8>, from: int)
    requires
        0 <= from <= s.len(),
        forall|j: int| from <= j < s.len() ==> s[j] != 0,
    ensures
        first_nul_from(s, from) == s.len(),
    decreases s.len() - from,
{
    if from < s.len() {
        lemma_first_nul_none(s, from + 1);
    }
}

/// Reads the big-endian 32-bit unsigned value at a position.
fn read_be_u32(data: &Vec<u8>, pos: usize) -> (r: u32)
    requires
        pos + 4 <= data@.len(),
    ensures
        r == be_u32(data@, pos as int),
{
    let n: usize = data.len();
    let b0: u32 = data[pos] as u32;
    let b1: u32 = data[pos + 1] as u32;
    let b2: u32 = data[pos + 2] as u32;
    let b3: u32 = data[pos + 3] as u32;
    b0 * 0x100_0000 + b1 * 0x1_0000 + b2 * 0x100 + b3
}

/// Reads the big-endian 32-bit two's-complement value at a position,
/// sign-extended.
fn read_be_i64(data: &Vec<u8>, pos: usize) -> (r: i64)
    requires
        pos + 4 <= data@.len(),
    ensures
        r == be_i32(data@, pos as int),
        -0x8000_0000 <= r < 0x8000_0000,
{
    let v: u32 = read_be_u32(data, pos);
    if v >= 0x8000_0000 {
        (v as i64) - 0x1_0000_0000i64
    } else {
        v as i64
    }
}

/// Decodes a buffer into its transition records, in file order.
#[verifier::rlimit(100)]
pub(crate) fn parse_tz_data(data: &Vec<u8>) -> (r: Result<Vec<Transition>, DecodeError>)
    ensures
        r is Ok <==> spec_decode(data@) is Ok,
        r is Ok ==> r->Ok_0.deep_view() == spec_decode(data@)->Ok_0,
        r is Err ==> r->Err_0 == spec_decode(data@)->Err_0,
{
    let ghost dd = data@;
    let n: usize = data.len();
    if n < 44 {
        return Err(DecodeError::Truncated);
    }
    if !(data[0] == 0x54 && data[1] == 0x5a && data[2] == 0x69 && data[3] == 0x66) {
        return Err(DecodeError::BadMagic);
    }
    let tc: u32 = read_be_u32(data, 32);
    let ty: u32 = read_be_u32(data, 36);
    let cc: u32 = read_be_u32(data, 40);
    let end64: u64 = 44 + 5 * (tc as u64) + 6 * (ty as u64) + (cc as u64);
    if (n as u64) < end64 {
        return Err(DecodeError::Truncated);
    }
    let tcu: usize = tc as usize;
    let tyu: usize = ty as usize;
    let ccu: usize = cc as usize;
    let tb: usize = 44 + 4 * tcu;
    let yb: usize = tb + tcu;
    let cb: usize = yb + 6 * tyu;
    proof {
        assert(tb == idx_base(dd));
        assert(yb == type_base(dd));
        assert(cb == char_base(dd));
        assert(cb + ccu == table_end(dd));
        assert(dd.len() >= table_end(dd));
    }
    let mut out: Vec<Transition> = Vec::new();
    let mut i: usize = 0;
    while i < tcu
        invariant
            dd == data@,
            dd.len() == n,
            n >= 44,
            magic_ok(dd),
            tcu == spec_timecnt(dd),
            tyu == spec_typecnt(dd),
            ccu == spec_charcnt(dd),
            tb == idx_base(dd),
            yb == type_base(dd),
            cb == char_base(dd),
            cb + ccu == table_end(dd),
            n >= table_end(dd),
            i <= tcu,
            out.deep_view().len() == i,
            forall|k: int|
                0 <= k < i ==> transition_ok(dd, k) && out.deep_view()[k] == spec_transition(
                    dd,
                    k,
                ),
        decreases tcu - i,
    {
        let ts: i64 = read_be_i64(data, 44 + 4 * i);
        let j: usize = data[tb + i] as usize;
        if j >= tyu {
            proof {
                assert(!transition_ok(dd, i as int));
                assert(!indices_ok(dd));
            }
            return Err(DecodeError::BadIndex);
        }
        let off64: i64 = read_be_i64(data, yb + 6 * j);
        let off: i32 = off64 as i32;
        let dst_byte: u8 = data[yb + 6 * j + 4];
        let di: usize = data[yb + 6 * j + 5] as usize;
        if di >= ccu {
            proof {
                assert(!transition_ok(dd, i as int));
                assert(!indices_ok(dd));
            }
            return Err(DecodeError::BadIndex);
        }
        // Scan the designation table for the terminating NUL.
        let te: usize = cb + ccu;
        let mut k: usize = cb + di;
        while k < te && data[k] != 0
            invariant
                dd == data@,
                te == cb + ccu,
                te <= dd.len(),
                cb + di <= k <= te,
                forall|q: int| cb + di <= q < k ==> dd[q] != 0,
            decreases te - k,
        {
            k = k + 1;
        }
        if k == te {
            proof {
                assert forall|q: int|
                    di <= q < spec_chars(dd).len() implies spec_chars(dd)[q] != 0 by {
                    assert(spec_chars(dd)[q] == dd[char_base(dd) + q]);
                }
                lemma_first_nul_none(spec_chars(dd), di as int);
                assert(!transition_ok(dd, i as int));
                assert(!indices_ok(dd));
            }
            return Err(DecodeError::BadIndex);
        }
        proof {
            assert(dd[k as int] == 0);
            assert(spec_chars(dd)[k - cb] == dd[k as int]);
            assert forall|q: int| di <= q < k - cb implies spec_chars(dd)[q] != 0 by {
                assert(spec_chars(dd)[q] == dd[char_base(dd) + q]);
            }
            lemma_first_nul_at(spec_chars(dd), di as int, k - cb);
        }
        // Copy the designation bytes out.
        let mut desig: Vec<u8> = Vec::new();
        let mut p: usize = cb + di;
        while p < k
            invariant
                dd == data@,
                cb + di <= p <= k,
                k < dd.len(),
                desig@.len() == p - (cb + di),
                forall|q: int| 0 <= q < desig@.len() ==> desig@[q] == dd[cb + di + q],
            decreases k - p,
        {
            desig.push(data[p]);
            p = p + 1;
        }
        proof {
            assert(desig@ =~= designation_from(spec_chars(dd), di as int)) by {
                assert forall|q: int|
                    0 <= q < desig@.len() implies desig@[q] == designation_from(
                    spec_chars(dd),
                    di as int,
                )[q] by {
                    assert(spec_chars(dd)[di + q] == dd[char_base(dd) + di + q]);
                }
            }
        }
        let t = Transition { timestamp: ts, offset_seconds: off, is_dst: dst_byte != 0, designation: desig };
        proof {
            assert(t@ == spec_transition(dd, i as int));
            assert(transition_ok(dd, i as int));
        }
        out.push(t);
        i = i + 1;
    }
    proof {
        assert(indices_ok(dd));
        assert(out.deep_view() =~= raw_transitions(dd));
    }
    Ok(out)
}

/// Sorts transition records by timestamp in descending order, keeping
/// exactly the records it was given (as a multiset).
pub(crate) fn sort_transitions_descending(input: Vec<Transition>) -> (r: Vec<Transition>)
    ensures
        sorted_descending(r.deep_view()),
        r.deep_view().to_multiset() == input.deep_view().to_multiset(),
{
    broadcast use group_to_multiset_ensures;

    let mut rem = input;
    let mut out: Vec<Transition> = Vec::new();
    let ghost total = input.deep_view().to_multiset();
    while rem.len() > 0
        invariant
            sorted_descending(out.deep_view()),
            out.deep_view().to_multiset().add(rem.deep_view().to_multiset()) == total,
        decreases rem@.len(),
    {
        let ghost old_rem_dv = rem.deep_view();
        let t = rem.pop().unwrap();
        proof {
            assert(old_rem_dv =~= rem.deep_view().push(t@));
            vstd::seq_lib::to_multiset_build(rem.deep_view(), t@);
            assert(old_rem_dv.to_multiset() == rem.deep_view().to_multiset().insert(t@));
        }
        let mut p: usize = 0;
        while p < out.len() && out[p].timestamp >= t.timestamp
            invariant
                p <= out@.len(),
                forall|j: int| 0 <= j < p ==> out.deep_view()[j].timestamp >= t@.timestamp,
            decreases out@.len() - p,
        {
            p = p + 1;
        }
        let ghost old_out_dv = out.deep_view();
        let ghost pp = p as int;
        out.insert(p, t);
        proof {
            assert(out.deep_view() =~= old_out_dv.insert(pp, t@)) by {
                old_out_dv.insert_ensures(pp, t@);
                assert forall|q: int|
                    0 <= q < out.deep_view().len() implies out.deep_view()[q] == old_out_dv.insert(
                    pp,
                    t@,
                )[q] by {
                    old_out_dv.insert_ensures(pp, t@);
                }
            }
            vstd::seq_lib::to_multiset_insert(old_out_dv, pp, t@);
            assert(out.deep_view().to_multiset().add(rem.deep_view().to_multiset()) =~= total);
            // The new element stands where everything before it has a
            // timestamp at least as large and everything after a smaller
            // one, so the order is preserved.
            old_out_dv.insert_ensures(pp, t@);
            assert forall|a: int, b: int|
                0 <= a <= b < out.deep_view().len() implies out.deep_view()[a].timestamp
                >= out.deep_view()[b].timestamp by {
                let ndv = out.deep_view();
                if a < pp && b == pp {
                    assert(ndv[a] == old_out_dv[a]);
                } else if a == pp && b > pp {
                    assert(ndv[b] == old_out_dv[b - 1]);
                    assert(old_out_dv[pp].timestamp < t@.timestamp || pp == old_out_dv.len());
                }
            }
        }
    }
    proof {
        assert forall|m: TransitionModel| rem.deep_view().to_multiset().count(m) == 0 by {
            assert(!rem.deep_view().contains(m));
        }
        assert(out.deep_view().to_multiset().add(rem.deep_view().to_multiset())
            =~= out.deep_view().to_multiset());
    }
    out
}

} // verus!
