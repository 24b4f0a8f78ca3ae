//! Run-length packing of bytes.
//!
//! Packed data is a list of runs, each held in two bytes: how often a byte
//! is repeated, from 1 to 255 times, and the byte. The packing is the
//! shortest there is: it starts a new run only where the byte changes or the
//! run before it is full.

use vstd::prelude::*;

verus! {

/// The bytes that one run stands for.
pub open spec fn run_of(count: u8, byte: u8) -> Seq<u8> {
    Seq::new(count as nat, |i: int| byte)
}

/// The bytes that packed data stands for, run by run. A last byte that
/// belongs to no run stands for nothing.
pub open spec fn expand(packed: Seq<u8>) -> Seq<u8>
    decreases packed.len(),
{
    if packed.len() < 2 {
        Seq::empty()
    } else {
        run_of(packed[0], packed[1]) + expand(packed.subrange(2, packed.len() as int))
    }
}

/// Whether packed data is made of whole runs, none of them empty, and none
/// that could have gone into the run before it.
pub open spec fn is_packed(packed: Seq<u8>) -> bool {
    &&& packed.len() % 2 == 0
    &&& forall|k: int| 0 <= k < packed.len() && k % 2 == 0 ==> #[trigger] packed[k] >= 1
    &&& forall|k: int|
        0 <= k < packed.len() - 2 && k % 2 == 0 ==> packed[k + 1] != packed[k + 3]
            || #[trigger] packed[k] == 255
}

/// Adding a run behind whole runs adds the bytes of that run.
pub proof fn lemma_expand_push(packed: Seq<u8>, count: u8, byte: u8)
    requires
        packed.len() % 2 == 0,
    ensures
        expand(packed.push(count).push(byte)) == expand(packed) + run_of(count, byte),
    decreases packed.len(),
{
    let longer = packed.push(count).push(byte);
    if packed.len() == 0 {
        assert(longer.subrange(2, longer.len() as int).len() == 0);
        assert(expand(longer.subrange(2, longer.len() as int)) == Seq::<u8>::empty());
        assert(expand(longer) =~= run_of(count, byte));
        assert(expand(packed) + run_of(count, byte) =~= run_of(count, byte));
    } else {
        let rest = packed.subrange(2, packed.len() as int);
        lemma_expand_push(rest, count, byte);
        assert(longer.subrange(2, longer.len() as int) == rest.push(count).push(byte));
        assert(longer[0] == packed[0] && longer[1] == packed[1]);
        assert(expand(longer) =~= expand(packed) + run_of(count, byte));
    }
}

/// Packs bytes into runs. The level is taken for the sake of callers that
/// pass one and has no bearing on the result.
pub fn compress_file_data(data: &Vec<u8>, compression_level: Option<u8>) -> (packed: Vec<u8>)
    ensures
        expand(packed@) == data@,
        is_packed(packed@),
{
    let mut packed: Vec<u8> = Vec::new();
    let mut current: u8 = 0;
    let mut count: u8 = 0;
    let mut i: usize = 0;
    while i < data.len()
        invariant
            i <= data.len(),
            is_packed(packed@),
            count == 0 <==> i == 0,
            expand(packed@) + run_of(count, current) == data@.take(i as int),
            packed.len() > 0 ==> packed[packed.len() - 1] != current || packed[packed.len() - 2]
                == 255,
        decreases data.len() - i,
    {
        let byte = data[i];
        let ghost before = packed@;
        let ghost pending = run_of(count, current);
        assert(data@.take(i + 1) == data@.take(i as int).push(byte));
        if count == 0 || (byte == current && count < 255) {
            count += 1;
            current = byte;
            assert(run_of(count, current) =~= pending.push(byte));
            assert(expand(packed@) + run_of(count, current) =~= (expand(packed@) + pending).push(
                byte,
            ));
        } else {
            packed.push(count);
            packed.push(current);
            proof {
                lemma_expand_push(before, count, current);
                assert(packed@ == before.push(count).push(current));
                assert(forall|k: int| 0 <= k < before.len() ==> packed[k] == before[k]);
            }
            current = byte;
            count = 1;
            assert(run_of(count, current) =~= Seq::<u8>::empty().push(byte));
            assert(expand(packed@) + run_of(count, current) =~= (expand(before) + pending).push(
                byte,
            ));
        }
        i += 1;
    }
    if count > 0 {
        let ghost before = packed@;
        packed.push(count);
        packed.push(current);
        proof {
            lemma_expand_push(before, count, current);
            assert(packed@ == before.push(count).push(current));
            assert(forall|k: int| 0 <= k < before.len() ==> packed[k] == before[k]);
            assert(data@.take(i as int) == data@);
        }
    } else {
        assert(data@.take(i as int) == data@);
        assert(run_of(count, current) =~= Seq::<u8>::empty());
        assert(expand(packed@) + run_of(count, current) =~= expand(packed@));
    }
    packed
}

} // verus!
