//! Generation of fresh device identifiers: a random alphanumeric string,
//! with a defensive uniqueness check against the registry, so that every
//! identifier the hub ever hands out is provably distinct from every other.

use vstd::prelude::*;

use vstd::set_lib::lemma_len_subset;
use vstd::seq_lib::seq_to_set_is_finite;
use rand::Rng;

use crate::device::{dev_ids, models, Dyscypliner};

verus! {

/// An ASCII letter or digit.
pub open spec fn is_alnum_char(c: char) -> bool {
    (('a' as u32) <= (c as u32) && (c as u32) <= ('z' as u32)) || (('A' as u32) <= (c as u32) && (
    c as u32) <= ('Z' as u32)) || (('0' as u32) <= (c as u32) && (c as u32) <= ('9' as u32))
}

/// Relies on rand's `Alphanumeric` distribution, sampled from `thread_rng`:
/// every sampled byte is an ASCII letter or digit (a-z, A-Z, 0-9), so the
/// collected string holds exactly `len` such characters. Nothing more is
/// assumed of the outcome: the characters are random.
#[verifier::external_body]
fn random_alphanumeric(len: usize) -> (r: String)
    ensures
        r@.len() == len,
        forall|i: int| 0 <= i < r@.len() ==> is_alnum_char(r@[i]),
{
    let bytes: Vec<u8> = rand::thread_rng().sample_iter(&rand::distributions::Alphanumeric).take(
        len,
    ).collect();
    String::from_utf8(bytes).expect("alphanumeric bytes are valid UTF-8")
}

/// The candidate identifier tried at step `k`: the random base with `k`
/// padding characters appended.
pub open spec fn candidate(base: Seq<char>, k: int) -> Seq<char> {
    base + Seq::new(k as nat, |i: int| 'a')
}

/// Candidates of different steps have different lengths, so at most
/// `ids.len()` of the first `ids.len() + 1` candidates can collide with an
/// existing identifier: some candidate among them is free.
proof fn lemma_some_candidate_free(ids: Seq<Seq<char>>, base: Seq<char>)
    ensures
        exists|m: int| 0 <= m <= ids.len() && !ids.contains(candidate(base, m)),
{
    broadcast use seq_to_set_is_finite;

    if forall|m: int| 0 <= m <= ids.len() ==> ids.contains(#[trigger] candidate(base, m)) {
        let n = ids.len() as int;
        let cands = Seq::new((n + 1) as nat, |m: int| candidate(base, m));
        assert forall|i: int, j: int|
            0 <= i < cands.len() && 0 <= j < cands.len() && i != j implies cands[i] != cands[j] by {
            assert(cands[i].len() == base.len() + i);
            assert(cands[j].len() == base.len() + j);
        }
        assert(cands.no_duplicates());
        cands.unique_seq_to_set();
        ids.lemma_cardinality_of_set();
        assert forall|x: Seq<char>| cands.to_set().contains(x) implies ids.to_set().contains(
            x,
        ) by {
            let m = choose|m: int| 0 <= m < cands.len() && cands[m] == x;
            assert(ids.contains(candidate(base, m)));
        }
        assert(cands.to_set().subset_of(ids.to_set()));
        lemma_len_subset(cands.to_set(), ids.to_set());
    }
}

/// Whether some registered device already carries the identifier `id`.
pub fn contains_id(devices: &Vec<Dyscypliner>, id: &String) -> (r: bool)
    ensures
        r == dev_ids(models(devices@)).contains(id@),
{
    let ghost ids = dev_ids(models(devices@));
    let mut j: usize = 0;
    while j < devices.len()
        invariant
            j <= devices.len(),
            ids == dev_ids(models(devices@)),
            ids.len() == devices.len(),
            forall|m: int| 0 <= m < j ==> ids[m] != id@,
        decreases devices.len() - j,
    {
        if devices[j].id == *id {
            proof {
                assert(ids[j as int] == id@);
            }
            return true;
        }
        proof {
            assert(ids[j as int] == devices@[j as int].id@);
        }
        j = j + 1;
    }
    false
}

/// Picks an identifier no registered device carries: 16 random alphanumeric
/// characters, padded while it collides with an existing identifier (a
/// defensive check; a collision is already next to impossible).
pub fn fresh_device_id(devices: &Vec<Dyscypliner>) -> (id: String)
    ensures
        id@.len() >= 16,
        forall|i: int| 0 <= i < id@.len() ==> is_alnum_char(id@[i]),
        !dev_ids(models(devices@)).contains(id@),
{
    let mut id = random_alphanumeric(16);
    let ghost base = id@;
    let ghost ids = dev_ids(models(devices@));
    let mut k: usize = 0;
    let n = devices.len();
    proof {
        assert(id@ =~= candidate(base, 0));
    }
    loop
        invariant
            k <= n,
            n == devices@.len(),
            ids == dev_ids(models(devices@)),
            ids.len() == devices@.len(),
            base.len() == 16,
            forall|i: int| 0 <= i < base.len() ==> is_alnum_char(base[i]),
            id@ == candidate(base, k as int),
            forall|m: int| 0 <= m < k ==> ids.contains(#[trigger] candidate(base, m)),
        decreases n - k,
    {
        if !contains_id(devices, &id) {
            proof {
                assert forall|i: int| 0 <= i < id@.len() implies is_alnum_char(id@[i]) by {
                    if i >= base.len() {
                        assert(id@[i] == 'a');
                    }
                }
            }
            return id;
        }
        proof {
            if k == n {
                lemma_some_candidate_free(ids, base);
                let mm = choose|m: int|
                    0 <= m <= ids.len() && !ids.contains(candidate(base, m));
                assert(ids.contains(candidate(base, mm)));
            }
        }
        id.append("a");
        proof {
            reveal_strlit("a");
            assert(id@ =~= candidate(base, k + 1));
        }
        k = k + 1;
    }
}

} // verus!
