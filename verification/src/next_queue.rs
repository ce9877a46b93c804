//! The queue of upcoming pieces, refilled one shuffled bag of all seven kinds
//! at a time.
use vstd::prelude::*;

use heapless::Deque;
use crate::bag_rng::{rng_from_seed, seeded_bag, shuffle_bag, BagRng};
use crate::piece::PieceKind;

verus! {

#[verifier::external_type_specification]
#[verifier::external_body]
#[verifier::reject_recursive_types(T)]
pub struct ExDeque<T, const N: usize>(heapless::Deque<T, N>);

/// `Clone` for `heapless::Deque`: a new deque that holds a clone of each
/// item, in order. Nothing is claimed of the result here.
pub assume_specification<T: Clone, const N: usize>[ <heapless::Deque<T, N> as Clone>::clone ](
    d: &heapless::Deque<T, N>,
) -> (r: heapless::Deque<T, N>);

/// The pieces held by a deque of capacity 13, front first.
pub uninterp spec fn queued(d: Deque<PieceKind, 13>) -> Seq<PieceKind>;

/// `heapless::Deque::new`: a deque that holds nothing.
#[verifier::external_body]
fn deque_new() -> (d: Deque<PieceKind, 13>)
    ensures
        queued(d) == Seq::<PieceKind>::empty(),
{
    Deque::new()
}

/// `heapless::Deque::len`: the number of pieces held.
#[verifier::external_body]
fn deque_len(d: &Deque<PieceKind, 13>) -> (n: usize)
    ensures
        n == queued(*d).len(),
{
    d.len()
}

/// `heapless::Deque::pop_front`: removes and returns the front piece, or
/// returns `None` and changes nothing when the deque is empty.
#[verifier::external_body]
fn deque_pop_front(d: &mut Deque<PieceKind, 13>) -> (r: Option<PieceKind>)
    ensures
        match r {
            Some(p) => {
                &&& queued(*old(d)).len() > 0
                &&& p == queued(*old(d))[0]
                &&& queued(*final(d)) == queued(*old(d)).drop_first()
            },
            None => {
                &&& queued(*old(d)).len() == 0
                &&& queued(*final(d)) == queued(*old(d))
            },
        },
{
    d.pop_front()
}

/// `heapless::Deque::push_back`: appends the piece when fewer than 13 are held;
/// otherwise hands it back and changes nothing.
#[verifier::external_body]
fn deque_push_back(d: &mut Deque<PieceKind, 13>, item: PieceKind) -> (r: Result<(), PieceKind>)
    ensures
        match r {
            Ok(_) => {
                &&& queued(*old(d)).len() < 13
                &&& queued(*final(d)) == queued(*old(d)).push(item)
            },
            Err(back) => {
                &&& queued(*old(d)).len() >= 13
                &&& back == item
                &&& queued(*final(d)) == queued(*old(d))
            },
        },
{
    d.push_back(item)
}

/// `heapless::Deque::iter`, copied into a vector: the pieces held, front first.
#[verifier::external_body]
fn deque_to_vec(d: &Deque<PieceKind, 13>) -> (v: Vec<PieceKind>)
    ensures
        v@ == queued(*d),
{
    d.iter().copied().collect()
}

/// The seven kinds, in declaration order.
pub open spec fn all_kinds() -> Seq<PieceKind> {
    seq![
        PieceKind::I,
        PieceKind::J,
        PieceKind::L,
        PieceKind::O,
        PieceKind::S,
        PieceKind::T,
        PieceKind::Z,
    ]
}

/// Whether `s` holds each of the seven kinds exactly once.
pub open spec fn is_bag(s: Seq<PieceKind>) -> bool {
    s.len() == 7 && s.to_multiset() == all_kinds().to_multiset()
}

/// Whether `s` is a run of whole bags.
pub open spec fn whole_bags(s: Seq<PieceKind>) -> bool {
    &&& s.len() % 7 == 0
    &&& forall|k: int| 0 <= k < s.len() / 7 ==> is_bag(#[trigger] s.subrange(7 * k, 7 * k + 7))
}

proof fn lemma_whole_bags_push(s: Seq<PieceKind>, b: Seq<PieceKind>)
    requires
        whole_bags(s),
        is_bag(b),
    ensures
        whole_bags(s + b),
{
    let t = s + b;
    assert(t.len() / 7 == s.len() / 7 + 1);
    assert forall|k: int| 0 <= k < t.len() / 7 implies is_bag(#[trigger] t.subrange(7 * k, 7 * k + 7)) by {
        if k < s.len() / 7 {
            assert(t.subrange(7 * k, 7 * k + 7) =~= s.subrange(7 * k, 7 * k + 7));
        } else {
            assert(k == s.len() / 7);
            assert(t.subrange(7 * k, 7 * k + 7) =~= b);
        }
    }
}

/// The first `n` bags that a generator seeded with `seed` deals, in order.
pub open spec fn seeded_deck(seed: u64, n: nat) -> Seq<PieceKind>
    decreases n,
{
    if n == 0 {
        Seq::empty()
    } else {
        seeded_deck(seed, (n - 1) as nat) + seeded_bag(seed, (n - 1) as nat)
    }
}

/// The bags dealt for a seed come out the same however many follow.
pub proof fn lemma_seeded_deck_prefix(seed: u64, n: nat, m: nat)
    requires
        n <= m,
    ensures
        seeded_deck(seed, n).is_prefix_of(seeded_deck(seed, m)),
    decreases m,
{
    if n < m {
        lemma_seeded_deck_prefix(seed, n, (m - 1) as nat);
        let a = seeded_deck(seed, n);
        let b = seeded_deck(seed, (m - 1) as nat);
        assert(a =~= seeded_deck(seed, m).subrange(0, a.len() as int)) by {
            assert forall|i: int| 0 <= i < a.len() implies a[i] == seeded_deck(seed, m)[i] by {
                assert(a[i] == b[i]);
            }
        }
    } else {
        assert(seeded_deck(seed, n) =~= seeded_deck(seed, m).subrange(0, seeded_deck(seed, n).len() as int));
    }
}

proof fn lemma_empty_whole_bags()
    ensures
        whole_bags(Seq::<PieceKind>::empty()),
{
}

/// The upcoming pieces and the generator that shuffles the next bags.
#[derive(Clone)]
pub struct NextQueue {
    pieces: Deque<PieceKind, 13>,
    rng: BagRng,
    /// Every piece ever put into the queue, in order.
    dealt: Ghost<Seq<PieceKind>>,
}

impl NextQueue {
    /// The upcoming pieces, next first.
    pub closed spec fn view(&self) -> Seq<PieceKind> {
        queued(self.pieces)
    }

    /// Every piece ever put into the queue, in order: the pieces already taken,
    /// then the upcoming ones.
    pub closed spec fn dealt(&self) -> Seq<PieceKind> {
        self.dealt@
    }

    /// The seed of the generator that shuffles the bags.
    pub closed spec fn seed(&self) -> u64 {
        self.rng.seed()
    }

    /// How many bags have been dealt.
    pub closed spec fn bags(&self) -> nat {
        self.rng.bags()
    }

    /// The pieces taken from the queue so far.
    pub open spec fn taken(&self) -> Seq<PieceKind> {
        self.dealt().take(self.dealt().len() - self@.len())
    }

    /// The queue was filled by whole bags, the ones the seed gives in order,
    /// what is left of them is still upcoming, and between five and eleven
    /// pieces are waiting.
    pub open spec fn wf(&self) -> bool {
        &&& whole_bags(self.dealt())
        &&& self.dealt() == seeded_deck(self.seed(), self.bags())
        &&& self.dealt().len() == 7 * self.bags()
        &&& self@.len() <= self.dealt().len()
        &&& self@ == self.dealt().skip(self.dealt().len() - self@.len())
        &&& 5 <= self@.len() <= 11
    }

    /// A queue holding one bag, shuffled by a generator seeded with `seed`.
    pub fn new(seed: u64) -> (r: NextQueue)
        ensures
            r.wf(),
            r.seed() == seed,
            r@ == seeded_bag(seed, 0),
            r@.len() == 7,
            is_bag(r@),
            r.dealt() == r@,
    {
        let mut result = NextQueue {
            pieces: deque_new(),
            rng: rng_from_seed(seed),
            dealt: Ghost(Seq::empty()),
        };
        assert(result@ =~= result.dealt@.skip(0));
        proof {
            assert(seeded_deck(seed, 0) =~= Seq::<PieceKind>::empty());
        }
        result.add_bag();
        proof {
            assert(seeded_deck(seed, 1) =~= seeded_deck(seed, 0) + seeded_bag(seed, 0));
            assert(result.dealt@ =~= Seq::<PieceKind>::empty() + result@);
            assert(result@ =~= result.dealt@.skip(0));
        }
        result
    }

    /// Takes the next piece; when fewer than five are left, a new bag follows.
    pub fn pull(&mut self) -> (r: PieceKind)
        requires
            old(self).wf(),
        ensures
            final(self).wf(),
            final(self).seed() == old(self).seed(),
            r == old(self)@[0],
            old(self)@.len() - 1 >= 5 ==> final(self)@ == old(self)@.drop_first()
                && final(self).dealt() == old(self).dealt(),
            old(self)@.len() - 1 < 5 ==> {
                let bag = final(self).dealt().skip(old(self).dealt().len() as int);
                &&& is_bag(bag)
                &&& bag == seeded_bag(old(self).seed(), old(self).bags())
                &&& final(self).dealt() == old(self).dealt() + bag
                &&& final(self)@ == old(self)@.drop_first() + bag
            },
    {
        let popped = deque_pop_front(&mut self.pieces);
        let result = match popped {
            Some(p) => p,
            None => PieceKind::I,
        };
        proof {
            let d = self.dealt@;
            let q = old(self)@;
            assert(self@ =~= d.skip(d.len() - self@.len())) by {
                assert forall|i: int| 0 <= i < self@.len() implies self@[i] == d.skip(
                    d.len() - self@.len(),
                )[i] by {
                    assert(self@[i] == q[i + 1]);
                    assert(q[i + 1] == d.skip(d.len() - q.len())[i + 1]);
                }
            }
        }
        if deque_len(&self.pieces) < 5 {
            let ghost before = self.dealt@;
            let ghost mid = self@;
            self.add_bag();
            proof {
                let bag = self.dealt@.skip(before.len() as int);
                assert(bag =~= self.dealt@.subrange(before.len() as int, self.dealt@.len() as int));
            }
        }
        result
    }

    /// Shuffles a new bag of all seven kinds and appends it.
    fn add_bag(&mut self)
        requires
            old(self)@.len() <= 6,
            whole_bags(old(self).dealt()),
            old(self)@.len() <= old(self).dealt().len(),
            old(self)@ == old(self).dealt().skip(old(self).dealt().len() - old(self)@.len()),
            old(self).dealt() == seeded_deck(old(self).seed(), old(self).bags()),
            old(self).dealt().len() == 7 * old(self).bags(),
        ensures
            ({
                let bag = final(self).dealt().skip(old(self).dealt().len() as int);
                &&& is_bag(bag)
                &&& bag == seeded_bag(old(self).seed(), old(self).bags())
                &&& final(self).seed() == old(self).seed()
                &&& final(self).bags() == old(self).bags() + 1
                &&& final(self).dealt() == seeded_deck(final(self).seed(), final(self).bags())
                &&& final(self).dealt().len() == 7 * final(self).bags()
                &&& final(self).dealt() == old(self).dealt() + bag
                &&& final(self)@ == old(self)@ + bag
                &&& whole_bags(final(self).dealt())
                &&& final(self)@.len() <= final(self).dealt().len()
                &&& final(self)@ == final(self).dealt().skip(final(self).dealt().len() - final(self)@.len())
            }),
    {
        let mut bag = [
            PieceKind::I,
            PieceKind::J,
            PieceKind::L,
            PieceKind::O,
            PieceKind::S,
            PieceKind::T,
            PieceKind::Z,
        ];
        assert(bag@ =~= all_kinds());
        let ghost bags0 = self.rng.bags();
        let ghost seed0 = self.rng.seed();
        shuffle_bag(&mut bag, &mut self.rng);
        let ghost start = self@;
        let ghost d0 = self.dealt@;
        let mut i: usize = 0;
        while i < 7
            invariant
                i <= 7,
                start.len() <= 6,
                self.dealt@ == d0,
                self.rng.bags() == bags0 + 1,
                self.rng.seed() == seed0,
                whole_bags(d0),
                start.len() <= d0.len(),
                start == d0.skip(d0.len() - start.len()),
                self@ == start + bag@.take(i as int),
            decreases 7 - i,
        {
            let _ = deque_push_back(&mut self.pieces, bag[i]);
            proof {
                assert(bag@.take(i + 1) =~= bag@.take(i as int).push(bag@[i as int]));
            }
            i = i + 1;
        }
        proof {
            let old_dealt = self.dealt@;
            assert(bag@.take(7) =~= bag@);
            lemma_whole_bags_push(old_dealt, bag@);
            self.dealt = Ghost(old_dealt + bag@);
            assert(seeded_deck(self.rng.seed(), bags0 + 1) == seeded_deck(self.rng.seed(), bags0) + seeded_bag(self.rng.seed(), bags0));
            assert(self.dealt@.skip(old_dealt.len() as int) =~= bag@);
            assert(self@ =~= self.dealt@.skip(self.dealt@.len() - self@.len())) by {
                assert forall|k: int| 0 <= k < self@.len() implies self@[k] == self.dealt@.skip(
                    self.dealt@.len() - self@.len(),
                )[k] by {
                    if k < start.len() {
                        assert(start[k] == d0.skip(d0.len() - start.len())[k]);
                    }
                }
            }
        }
    }

    /// The upcoming pieces, next first.
    pub fn pieces(&self) -> (r: Vec<PieceKind>)
        ensures
            r@ == self@,
    {
        deque_to_vec(&self.pieces)
    }
}

} // verus!
