//! Lookup of the dictionary keys that are prefixes of an input, over a
//! finite-state transducer image.

use crate::error::ArtifactError;
use crate::lexicon::{
    build_term_fst, built_image, is_built_image, key_values, ordered_keys, runs_fit, sorts,
};
use crate::term::TermId;
use crate::text::piece_bytes;
use vstd::prelude::*;
use vstd::string::StringSliceAdditionalSpecFns;

verus! {

/// The `fst` crate's map over a transducer image.
#[verifier::external_type_specification]
#[verifier::external_body]
#[verifier::reject_recursive_types(D)]
pub struct ExFstMap<D>(fst::Map<D>);

/// The image that a map was opened on.
pub uninterp spec fn fst_image(map: fst::Map<Vec<u8>>) -> Seq<u8>;

/// Whether `fst::Map::new` takes these bytes for an image.
pub uninterp spec fn fst_accepts(image: Seq<u8>) -> bool;

/// Address of the root node of an image.
pub uninterp spec fn fst_root(image: Seq<u8>) -> usize;

/// The transition that leaves the node at `addr` on `byte`, if there is
/// one: the address of the node it leads to and the output it carries.
pub uninterp spec fn fst_next(image: Seq<u8>, addr: usize, byte: u8) -> Option<(usize, u64)>;

/// Whether the node at `addr` ends a key.
pub uninterp spec fn fst_final(image: Seq<u8>, addr: usize) -> bool;

/// Where the transducer stands after reading `key` from the root: the
/// node it has arrived at and the sum of the outputs on the way. There
/// is no such state where a transition is missing or the sum leaves `u64`.
pub open spec fn state_after(image: Seq<u8>, key: Seq<u8>) -> Option<(usize, u64)>
    decreases key.len(),
{
    if key.len() == 0 {
        Some((fst_root(image), 0u64))
    } else {
        match state_after(image, key.drop_last()) {
            Some((addr, out)) => match fst_next(image, addr, key.last()) {
                Some((next, more)) => if out + more <= u64::MAX {
                    Some((next, (out + more) as u64))
                } else {
                    None
                },
                None => None,
            },
            None => None,
        }
    }
}

/// Whether some key leads from the root to the node at `addr`.
pub open spec fn fst_has_node(image: Seq<u8>, addr: usize) -> bool {
    exists|key: Seq<u8>|
        (#[trigger] state_after(image, key)) matches Some(state) && state.0 == addr
}

/// The value that the transducer gives for `key`, if `key` is one of its keys.
pub open spec fn value_at(image: Seq<u8>, key: Seq<u8>) -> Option<u64> {
    match state_after(image, key) {
        Some((addr, out)) => if fst_final(image, addr) {
            Some(out)
        } else {
            None
        },
        None => None,
    }
}

/// First of the term ids that a value stands for.
pub open spec fn first_id(value: u64) -> int {
    (value >> 5) as int
}

/// Number of the term ids that a value stands for.
pub open spec fn id_count(value: u64) -> int {
    (value & 0x1F) as int
}

/// The matches that a key of `len` bytes with this value gives: one for
/// each of its term ids, in rising order. A value whose ids do not all
/// fit `usize` gives none.
pub open spec fn matches_of(len: usize, value: u64) -> Seq<(usize, TermId)> {
    if first_id(value) + id_count(value) <= usize::MAX {
        Seq::new(id_count(value) as nat, |j: int| (len, (first_id(value) + j) as usize))
    } else {
        Seq::empty()
    }
}

/// The matches of the prefix of `input` that is `n` bytes long.
pub open spec fn matches_at(image: Seq<u8>, input: Seq<u8>, n: int) -> Seq<(usize, TermId)> {
    match value_at(image, input.take(n)) {
        Some(value) => matches_of(n as usize, value),
        None => Seq::empty(),
    }
}

/// The matches of all prefixes of `input` that are between 1 and `n`
/// bytes long, shorter prefixes first.
pub open spec fn matches_upto(image: Seq<u8>, input: Seq<u8>, n: int) -> Seq<(usize, TermId)>
    decreases n,
{
    if n <= 0 {
        Seq::empty()
    } else {
        matches_upto(image, input, n - 1) + matches_at(image, input, n)
    }
}

/// `fst::Map::new`: opens a map on an image. It succeeds exactly on the
/// images that it accepts, and the map is then one over those bytes.
#[verifier::external_body]
fn open_map(bytes: Vec<u8>) -> (opened: Result<fst::Map<Vec<u8>>, fst::Error>)
    ensures
        opened is Ok <==> fst_accepts(bytes@),
        opened matches Ok(map) ==> fst_image(map) == bytes@,
{
    fst::Map::new(bytes)
}

/// `fst::raw::Fst::root` and `fst::raw::Node::addr`: the address of the
/// root node, for an image that the crate's builder wrote. No other
/// image is admitted: the crate does not check what it reads.
#[verifier::external_body]
fn root_addr(map: &fst::Map<Vec<u8>>) -> (addr: usize)
    requires
        is_built_image(fst_image(*map)),
    ensures
        addr == fst_root(fst_image(*map)),
{
    map.as_fst().root().addr()
}

/// `fst::raw::Fst::node`, `fst::raw::Node::find_input` and
/// `fst::raw::Node::transition`: the transition on `byte` out of the
/// node at `addr`, as the address it leads to and its output, for a node
/// of an image that the crate's builder wrote.
#[verifier::external_body]
fn transition(map: &fst::Map<Vec<u8>>, addr: usize, byte: u8) -> (next: Option<(usize, u64)>)
    requires
        is_built_image(fst_image(*map)),
        fst_has_node(fst_image(*map), addr),
    ensures
        next == fst_next(fst_image(*map), addr, byte),
{
    let node = map.as_fst().node(addr);
    node.find_input(byte).map(|index| node.transition(index)).map(|t| (t.addr, t.out.value()))
}

/// `fst::raw::Fst::node` and `fst::raw::Node::is_final`: whether the
/// node at `addr` ends a key, for a node of an image that the crate's
/// builder wrote.
#[verifier::external_body]
fn is_final(map: &fst::Map<Vec<u8>>, addr: usize) -> (is: bool)
    requires
        is_built_image(fst_image(*map)),
        fst_has_node(fst_image(*map), addr),
    ensures
        is == fst_final(fst_image(*map), addr),
{
    map.as_fst().node(addr).is_final()
}

/// Once no state follows a prefix, none follows any longer prefix.
pub proof fn lemma_dead_end(image: Seq<u8>, input: Seq<u8>, n: int, m: int)
    requires
        0 <= n <= m <= input.len(),
        state_after(image, input.take(n)) is None,
    ensures
        state_after(image, input.take(m)) is None,
        matches_upto(image, input, m) == matches_upto(image, input, n),
    decreases m - n,
{
    if n < m {
        lemma_dead_end(image, input, n, m - 1);
        assert(input.take(m).drop_last() =~= input.take(m - 1));
    }
}

/// The matches come with the shorter prefixes first: lengths never fall
/// from one match to the next, and each is the length of a prefix.
pub proof fn lemma_matches_sorted(image: Seq<u8>, input: Seq<u8>, n: int)
    requires
        0 <= n <= input.len(),
        n <= usize::MAX,
    ensures
        forall|i: int|
            0 <= i < matches_upto(image, input, n).len() ==> 1 <= (#[trigger] matches_upto(
                image,
                input,
                n,
            )[i]).0 <= n,
        forall|i: int, j: int|
            0 <= i <= j < matches_upto(image, input, n).len() ==> matches_upto(image, input, n)[i].0
                <= matches_upto(image, input, n)[j].0,
    decreases n,
{
    if n > 0 {
        lemma_matches_sorted(image, input, n - 1);
        let before = matches_upto(image, input, n - 1);
        let last = matches_at(image, input, n);
        let all = matches_upto(image, input, n);
        assert(all == before + last);
        assert forall|i: int| 0 <= i < all.len() implies 1 <= (#[trigger] all[i]).0 <= n by {
            if i < before.len() {
                assert(all[i] == before[i]);
            } else {
                assert(all[i] == last[i - before.len()]);
            }
        }
        assert forall|i: int, j: int| 0 <= i <= j < all.len() implies all[i].0 <= all[j].0 by {
            if j < before.len() {
                assert(all[i] == before[i]);
                assert(all[j] == before[j]);
            } else {
                assert(all[j] == last[j - before.len()]);
                assert(all[j].0 == n);
            }
        }
    }
}

/// Every key that is a prefix of the input is found, with each of its
/// term ids: so of two keys of which one begins the other, both are
/// found wherever the longer one begins the input.
pub proof fn lemma_prefix_key_found(image: Seq<u8>, input: Seq<u8>, n: int, k: int, j: int)
    requires
        1 <= k <= n <= input.len(),
        n <= usize::MAX,
        value_at(image, input.take(k)) is Some,
        0 <= j < id_count(value_at(image, input.take(k))->0),
        first_id(value_at(image, input.take(k))->0) + id_count(value_at(image, input.take(k))->0)
            <= usize::MAX,
    ensures
        matches_upto(image, input, n).contains(
            (k as usize, (first_id(value_at(image, input.take(k))->0) + j) as usize),
        ),
    decreases n,
{
    let value = value_at(image, input.take(k))->0;
    let wanted = (k as usize, (first_id(value) + j) as usize);
    let before = matches_upto(image, input, n - 1);
    let last = matches_at(image, input, n);
    if k == n {
        assert(last[j] == wanted);
        assert((before + last)[before.len() + j] == wanted);
    } else {
        lemma_prefix_key_found(image, input, n - 1, k, j);
        let i = choose|i: int| 0 <= i < before.len() && before[i] == wanted;
        assert((before + last)[i] == wanted);
    }
}

/// A searcher over the transducer of dictionary keys.
pub struct FstSearcher {
    map: fst::Map<Vec<u8>>,
}

impl FstSearcher {
    #[verifier::type_invariant]
    spec fn image_is_built(&self) -> bool {
        is_built_image(fst_image(self.map))
    }

    /// The transducer image that the searcher reads.
    pub closed spec fn image(&self) -> Seq<u8> {
        fst_image(self.map)
    }

    /// Opens a searcher on a transducer image that the builder wrote. It
    /// succeeds where the image is accepted.
    pub fn load(bytes: Vec<u8>) -> (loaded: Result<Self, ArtifactError>)
        requires
            is_built_image(bytes@),
        ensures
            loaded is Ok <==> fst_accepts(bytes@),
            loaded matches Ok(searcher) ==> searcher.image() == bytes@,
            loaded matches Err(e) ==> e is FstBuilderError,
    {
        match open_map(bytes) {
            Ok(map) => Ok(Self { map }),
            Err(e) => Err(ArtifactError::FstBuilderError(e)),
        }
    }

    /// Builds the transducer of the keys in the order that `order` gives,
    /// and opens a searcher on it. It is refused where a key has more
    /// than 31 terms, and where the image that was built is not accepted.
    pub fn build(keys: &Vec<&str>, order: &Vec<usize>) -> (built: Result<Self, ArtifactError>)
        requires
            sorts(piece_bytes(keys@), order@),
        ensures
            built is Ok <==> runs_fit(ordered_keys(piece_bytes(keys@), order@), 0) && fst_accepts(
                built_image(key_values(ordered_keys(piece_bytes(keys@), order@), 0)),
            ),
            built matches Ok(searcher) ==> searcher.image() == built_image(
                key_values(ordered_keys(piece_bytes(keys@), order@), 0),
            ),
            built matches Err(e) ==> (e is Malformed <==> !runs_fit(
                ordered_keys(piece_bytes(keys@), order@),
                0,
            )) && (e is Malformed || e is FstBuilderError),
    {
        match build_term_fst(keys, order) {
            Ok(image) => Self::load(image),
            Err(e) => Err(e),
        }
    }

    /// The matches of every dictionary key that is a prefix of `input`:
    /// the length of the key in bytes with each of its term ids, shorter
    /// keys first.
    pub fn get_from_prefix(&self, input: &str) -> (results: Vec<(usize, TermId)>)
        ensures
            results@ == matches_upto(self.image(), input.spec_bytes(), input.spec_bytes().len() as int),
            forall|i: int| 0 <= i < results@.len() ==> 1 <= (#[trigger] results@[i]).0 <= input.spec_bytes().len(),
            forall|i: int, j: int|
                0 <= i <= j < results@.len() ==> results@[i].0 <= results@[j].0,
    {
        proof {
            use_type_invariant(self);
        }
        let bytes = input.as_bytes();
        let ghost image = self.image();
        let ghost key = bytes@;
        let mut results: Vec<(usize, TermId)> = Vec::new();
        let mut addr: usize = root_addr(&self.map);
        let mut output: u64 = 0;
        let mut len: usize = 0;
        let mut alive: bool = true;
        proof {
            assert(key.take(0).len() == 0);
        }
        while alive && len < bytes.len()
            invariant
                len <= bytes.len(),
                key == bytes@,
                image == self.image(),
                image == fst_image(self.map),
                is_built_image(image),
                alive ==> state_after(image, key.take(len as int)) == Some((addr, output)),
                alive ==> results@ == matches_upto(image, key, len as int),
                !alive ==> results@ == matches_upto(image, key, key.len() as int),
            decreases bytes.len() - len + if alive { 1int } else { 0int },
        {
            proof {
                assert(fst_has_node(image, addr)) by {
                    assert(state_after(image, key.take(len as int)) matches Some(state)
                        && state.0 == addr);
                }
                assert(key.take(len + 1).drop_last() =~= key.take(len as int));
                assert(key.take(len + 1).last() == key[len as int]);
            }
            let step = match transition(&self.map, addr, bytes[len]) {
                Some((next, more)) => match output.checked_add(more) {
                    Some(sum) => Some((next, sum)),
                    None => None,
                },
                None => None,
            };
            match step {
                Some((next, sum)) => {
                    addr = next;
                    output = sum;
                    len += 1;
                    proof {
                        assert(fst_has_node(image, addr)) by {
                            assert(state_after(image, key.take(len as int)) matches Some(state)
                                && state.0 == addr);
                        }
                    }
                    if is_final(&self.map, addr) {
                        push_matches(&mut results, len, output);
                    }
                },
                None => {
                    proof {
                        lemma_dead_end(image, key, len + 1, key.len() as int);
                        assert(matches_at(image, key, len + 1) =~= Seq::empty());
                        assert(matches_upto(image, key, len + 1) =~= matches_upto(
                            image,
                            key,
                            len as int,
                        ));
                    }
                    alive = false;
                },
            }
        }
        proof {
            lemma_matches_sorted(image, key, key.len() as int);
        }
        results
    }
}

/// Appends the matches of a key of `len` bytes with this value.
fn push_matches(results: &mut Vec<(usize, TermId)>, len: usize, value: u64)
    ensures
        final(results)@ == old(results)@ + matches_of(len, value),
{
    let start: u64 = value >> 5;
    let count: u64 = value & 0x1F;
    assert(start <= 0x7FF_FFFF_FFFF_FFFF && count <= 31) by (bit_vector)
        requires
            start == value >> 5,
            count == value & 0x1F,
    ;
    if start + count > usize::MAX as u64 {
        assert(matches_of(len, value) =~= Seq::empty());
        assert(old(results)@ + matches_of(len, value) =~= old(results)@);
        return ;
    }
    let mut j: u64 = 0;
    while j < count
        invariant
            j <= count,
            start == value >> 5,
            count == value & 0x1F,
            start + count <= usize::MAX,
            results@ == old(results)@ + matches_of(len, value).take(j as int),
        decreases count - j,
    {
        results.push((len, (start + j) as usize));
        j += 1;
        assert(matches_of(len, value).take(j as int) =~= matches_of(len, value).take(j - 1).push(
            (len, (start + j - 1) as usize),
        ));
    }
    assert(matches_of(len, value).take(count as int) =~= matches_of(len, value));
}

} // verus!
