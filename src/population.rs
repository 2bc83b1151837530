//! A population of candidates evolved towards a reference image.

use crate::gene::{drawn_color, genes_mutated, genes_within, Gene};
use crate::image::{score, Fitness, RandomImage, GENE_COUNT};
use crate::color::Pixel;
use rand::rngs::StdRng;
use vstd::prelude::*;
use vstd::seq_lib::{to_multiset_insert, to_multiset_remove};

verus! {

/// Width and height, in pixels, at which candidates are compared with the
/// reference image.
pub const REFERENCE_SIDE: u32 = 10;

/// Length of the reference image: four bytes per pixel.
pub const REFERENCE_LEN: usize = 400;

/// Score of a member; lower is fitter. Members of one population all compare
/// the same number of reference bytes, so the error alone orders them.
pub open spec fn error_of(m: RandomImage) -> int {
    match m@.fitness {
        Some(f) => f.error as int,
        None => 0,
    }
}

/// Members in ascending order of fitness: the error never grows along `s`.
pub open spec fn by_fitness(s: Seq<RandomImage>) -> bool {
    forall|i: int, j: int| 0 <= i <= j < s.len() ==> error_of(#[trigger] s[i]) >= error_of(#[trigger] s[j])
}

/// A member as a population keeps it: rendered on the population's size,
/// genes on the image, and scored against the reference for its current genes.
pub open spec fn fit_member(m: RandomImage, w: u32, h: u32, reference: Seq<u8>) -> bool {
    &&& m.wf()
    &&& m.is_rendered()
    &&& m@.width == w
    &&& m@.height == h
    &&& genes_within(m@.genes, w as int, h as int)
    &&& m@.fitness == Some(
        score(m@.genes, w as int, h as int, REFERENCE_SIDE as int, REFERENCE_SIDE as int, reference),
    )
}

pub open spec fn all_fit(s: Seq<RandomImage>, w: u32, h: u32, reference: Seq<u8>) -> bool {
    forall|i: int| 0 <= i < s.len() ==> #[trigger] fit_member(s[i], w, h, reference)
}

/// The genes of a freshly created candidate: `GENE_COUNT` triangles in
/// randomly drawn colours.
pub open spec fn fresh_genes(genes: Seq<Gene>) -> bool {
    &&& genes.len() == GENE_COUNT
    &&& forall|j: int| 0 <= j < genes.len() ==> #[trigger] genes[j] is Triangle
    &&& forall|j: int| 0 <= j < genes.len() ==> drawn_color(#[trigger] genes[j].color_spec())
}

/// Number of members that one evolution step replaces: a fifth, rounded down.
pub open spec fn cull_count(n: int) -> int {
    n / 5
}

/// `new` is one evolution step away from `old`, whose members ranked by
/// ascending fitness are `ranked`: the `cull_count` least fit are gone, the
/// others stand mutated, in rank order, at the front of `new`, and fresh
/// candidates fill the rest.
pub open spec fn evolved_from(
    new: Seq<RandomImage>,
    old: Seq<RandomImage>,
    ranked: Seq<RandomImage>,
    w: u32,
    h: u32,
) -> bool {
    let c = cull_count(old.len() as int);
    &&& ranked.to_multiset() == old.to_multiset()
    &&& ranked.len() == old.len()
    &&& by_fitness(ranked)
    &&& new.len() == old.len()
    &&& forall|k: int|
        0 <= k < old.len() - c ==> genes_mutated(
            #[trigger] new[k]@.genes,
            ranked[c + k]@.genes,
            w as int,
            h as int,
        )
    &&& forall|k: int| old.len() - c <= k < old.len() ==> fresh_genes((#[trigger] new[k])@.genes)
}

/// A set of candidates evolved together against one reference image.
pub struct Population {
    width: u32,
    height: u32,
    ref_values: Vec<u8>,
    members: Vec<RandomImage>,
}

/// What a `Population` holds.
pub struct PopulationModel {
    pub width: u32,
    pub height: u32,
    pub reference: Seq<u8>,
    pub members: Seq<RandomImage>,
}

impl View for Population {
    type V = PopulationModel;

    closed spec fn view(&self) -> PopulationModel {
        PopulationModel {
            width: self.width,
            height: self.height,
            reference: self.ref_values@,
            members: self.members@,
        }
    }
}

fn error_key(m: &RandomImage) -> (r: u64)
    ensures
        r == error_of(*m),
{
    match m.fitness() {
        Some(f) => f.error,
        None => 0,
    }
}

/// Sorts members by ascending fitness, keeping the order of equally fit ones.
fn sort_by_fitness(members: &mut Vec<RandomImage>, w: u32, h: u32, reference: Ghost<Seq<u8>>)
    requires
        all_fit(old(members)@, w, h, reference@),
    ensures
        final(members)@.to_multiset() == old(members)@.to_multiset(),
        final(members)@.len() == old(members)@.len(),
        by_fitness(final(members)@),
        all_fit(final(members)@, w, h, reference@),
{
    let n = members.len();
    if n == 0 {
        return;
    }
    let mut i: usize = 1;
    while i < n
        invariant
            1 <= i <= n,
            n == members@.len(),
            members@.to_multiset() == old(members)@.to_multiset(),
            all_fit(members@, w, h, reference@),
            by_fitness(members@.subrange(0, i as int)),
        decreases n - i,
    {
        let ghost before = members@;
        let item = members.remove(i);
        proof {
            before.remove_ensures(i as int);
            to_multiset_remove(before, i as int);
        }
        let key = error_key(&item);
        let mut j = i;
        while j > 0 && error_key(&members[j - 1]) < key
            invariant
                0 <= j <= i,
                i < n,
                before.len() == n,
                members@ == before.remove(i as int),
                members@.len() == n - 1,
                forall|k: int| j <= k < i ==> error_of(#[trigger] members@[k]) < key,
            decreases j,
        {
            j = j - 1;
        }
        let ghost removed = members@;
        members.insert(j, item);
        proof {
            removed.insert_ensures(j as int, item);
            to_multiset_insert(removed, j as int, item);
            broadcast use vstd::multiset::group_multiset_axioms;
            before.to_multiset_ensures();
            assert(before[i as int] == item);
            assert(before.to_multiset().count(item) > 0);
            assert(before.to_multiset().remove(item).insert(item) =~= before.to_multiset());
            let s = members@.subrange(0, i + 1);
            assert forall|a: int, b: int| 0 <= a <= b < s.len() implies error_of(#[trigger] s[a])
                >= error_of(#[trigger] s[b]) by {
                assert(by_fitness(before.subrange(0, i as int)));
                if j > 0 {
                    assert(error_of(before[j - 1]) >= key);
                }
            }
        }
        i = i + 1;
    }
    assert(members@.subrange(0, n as int) =~= members@);
}

impl Population {
    /// The population is kept on an image of at least the reference's size,
    /// the reference holds `REFERENCE_LEN` bytes, and every member is fit.
    pub open spec fn wf(&self) -> bool {
        &&& self@.width >= REFERENCE_SIDE
        &&& self@.height >= REFERENCE_SIDE
        &&& self@.width * self@.height <= u32::MAX
        &&& self@.reference.len() == REFERENCE_LEN
        &&& all_fit(self@.members, self@.width, self@.height, self@.reference)
    }

    /// An empty population for `width` by `height` candidates, scored against
    /// the RGBA bytes of a `REFERENCE_SIDE` by `REFERENCE_SIDE` reference.
    pub fn new(width: u32, height: u32, reference_values: &[u8]) -> (r: Population)
        requires
            width >= REFERENCE_SIDE,
            height >= REFERENCE_SIDE,
            width * height <= u32::MAX,
            reference_values@.len() == REFERENCE_LEN,
        ensures
            r.wf(),
            r@ == (PopulationModel {
                width,
                height,
                reference: reference_values@,
                members: Seq::empty(),
            }),
    {
        Population {
            width,
            height,
            ref_values: vstd::slice::slice_to_vec(reference_values),
            members: Vec::new(),
        }
    }

    /// Number of members.
    pub fn len(&self) -> (r: usize)
        ensures
            r == self@.members.len(),
    {
        self.members.len()
    }

    /// Adds a fresh random candidate, scored against the reference.
    pub fn add_member(&mut self, rng: &mut StdRng)
        requires
            old(self).wf(),
        ensures
            final(self).wf(),
            final(self)@.width == old(self)@.width,
            final(self)@.height == old(self)@.height,
            final(self)@.reference == old(self)@.reference,
            final(self)@.members.len() == old(self)@.members.len() + 1,
            final(self)@.members.subrange(0, old(self)@.members.len() as int) == old(self)@.members,
            fresh_genes(final(self)@.members.last()@.genes),
    {
        let mut member = RandomImage::new(self.width, self.height, rng);
        let _ = member.calculate_fitness(self.ref_values.as_slice(), REFERENCE_SIDE, REFERENCE_SIDE);
        self.members.push(member);
        assert(self.members@.subrange(0, old(self)@.members.len() as int) =~= old(self)@.members);
    }

    /// One generation: rank the members by ascending fitness, drop the
    /// least fit fifth (rounded down), mutate and rescore the rest, and add as
    /// many fresh scored candidates as were dropped. The size never changes.
    /// Mutation may make a member less fit, so the best fitness can fall from
    /// one generation to the next.
    pub fn evolve(&mut self, rng: &mut StdRng)
        requires
            old(self).wf(),
        ensures
            final(self).wf(),
            final(self)@.width == old(self)@.width,
            final(self)@.height == old(self)@.height,
            final(self)@.reference == old(self)@.reference,
            final(self)@.members.len() == old(self)@.members.len(),
            exists|ranked: Seq<RandomImage>|
                evolved_from(
                    final(self)@.members,
                    old(self)@.members,
                    ranked,
                    old(self)@.width,
                    old(self)@.height,
                ),
    {
        let ghost reference = self.ref_values@;
        let ghost w = self.width;
        let ghost h = self.height;
        sort_by_fitness(&mut self.members, self.width, self.height, Ghost(reference));
        let ghost ranked = self.members@;
        let n = self.members.len();
        let cull = n / 5;
        for k in 0..cull
            invariant
                self.wf(),
                self@ == (PopulationModel { members: self@.members, ..old(self)@ }),
                ranked.to_multiset() == old(self)@.members.to_multiset(),
                ranked.len() == old(self)@.members.len(),
                by_fitness(ranked),
                n == ranked.len(),
                cull <= n,
                cull == cull_count(n as int),
                self@.members == ranked.subrange(k as int, n as int),
        {
            self.members.remove(0);
            assert(self@.members =~= ranked.subrange(k + 1, n as int));
        }
        let kept = self.members.len();
        for i in 0..kept
            invariant
                self.wf(),
                self@ == (PopulationModel { members: self@.members, ..old(self)@ }),
                w == self@.width,
                h == self@.height,
                reference == self@.reference,
                ranked.to_multiset() == old(self)@.members.to_multiset(),
                ranked.len() == old(self)@.members.len(),
                by_fitness(ranked),
                n == ranked.len(),
                cull == cull_count(n as int),
                kept == n - cull,
                self@.members.len() == kept,
                all_fit(ranked, w, h, reference),
                forall|k: int|
                    0 <= k < i ==> genes_mutated(
                        #[trigger] self@.members[k]@.genes,
                        ranked[cull + k]@.genes,
                        w as int,
                        h as int,
                    ),
                forall|k: int| i <= k < kept ==> #[trigger] self@.members[k] == ranked[cull + k],
        {
            assert(fit_member(ranked[cull + i], w, h, reference));
            self.members[i].mutate(rng);
            let _ = self.members[i].calculate_fitness(
                self.ref_values.as_slice(),
                REFERENCE_SIDE,
                REFERENCE_SIDE,
            );
        }
        let ghost survivors = self@.members;
        for k in 0..cull
            invariant
                self.wf(),
                self@ == (PopulationModel { members: self@.members, ..old(self)@ }),
                ranked.to_multiset() == old(self)@.members.to_multiset(),
                ranked.len() == old(self)@.members.len(),
                by_fitness(ranked),
                w == self@.width,
                h == self@.height,
                n == ranked.len(),
                cull == cull_count(n as int),
                kept == n - cull,
                survivors.len() == kept,
                forall|j: int|
                    0 <= j < kept ==> genes_mutated(
                        #[trigger] survivors[j]@.genes,
                        ranked[cull + j]@.genes,
                        w as int,
                        h as int,
                    ),
                self@.members.len() == kept + k,
                self@.members.subrange(0, kept as int) == survivors,
                forall|j: int| kept <= j < kept + k ==> fresh_genes((#[trigger] self@.members[j])@.genes),
        {
            let ghost before = self@.members;
            self.add_member(rng);
            assert forall|j: int| 0 <= j < before.len() implies self@.members[j] == before[j] by {
                assert(self@.members.subrange(0, before.len() as int)[j] == self@.members[j]);
            }
            assert(self@.members.subrange(0, kept as int) =~= survivors);
            assert(self@.members[kept + k] == self@.members.last());
            assert forall|j: int| kept <= j < kept + k + 1 implies fresh_genes(
                (#[trigger] self@.members[j])@.genes,
            ) by {
                if j < kept + k {
                    assert(self@.members.subrange(0, before.len() as int)[j] == self@.members[j]);
                    assert(fresh_genes(before[j]@.genes));
                }
            }
        }
        proof {
            assert forall|j: int| 0 <= j < kept implies self@.members[j] == survivors[j] by {
                assert(self@.members.subrange(0, kept as int)[j] == self@.members[j]);
            }
            let c = cull_count(old(self)@.members.len() as int);
            assert(c == cull);
            assert forall|k: int| 0 <= k < old(self)@.members.len() - c implies genes_mutated(
                #[trigger] self@.members[k]@.genes,
                ranked[c + k]@.genes,
                w as int,
                h as int,
            ) by {
                assert(self@.members[k] == survivors[k]);
            }
            assert(evolved_from(self@.members, old(self)@.members, ranked, w, h));
        }
    }

    /// Sorts the members by ascending fitness, keeping the order of equally
    /// fit ones.
    fn sort(&mut self)
        requires
            old(self).wf(),
        ensures
            final(self).wf(),
            final(self)@.width == old(self)@.width,
            final(self)@.height == old(self)@.height,
            final(self)@.reference == old(self)@.reference,
            final(self)@.members.len() == old(self)@.members.len(),
            final(self)@.members.to_multiset() == old(self)@.members.to_multiset(),
            by_fitness(final(self)@.members),
    {
        let ghost reference = self.ref_values@;
        sort_by_fitness(&mut self.members, self.width, self.height, Ghost(reference));
    }

    /// Re-sorts the members by ascending fitness and returns the fitness of
    /// the last, the fittest; `None` when there are no members.
    pub fn best_fitness(&mut self) -> (r: Option<Fitness>)
        requires
            old(self).wf(),
        ensures
            final(self).wf(),
            final(self)@.width == old(self)@.width,
            final(self)@.height == old(self)@.height,
            final(self)@.reference == old(self)@.reference,
            final(self)@.members.len() == old(self)@.members.len(),
            final(self)@.members.to_multiset() == old(self)@.members.to_multiset(),
            by_fitness(final(self)@.members),
            match r {
                None => old(self)@.members.len() == 0,
                Some(f) => {
                    &&& final(self)@.members.len() > 0
                    &&& final(self)@.members.last()@.fitness == Some(f)
                    &&& forall|j: int|
                        0 <= j < final(self)@.members.len() ==> error_of(
                            #[trigger] final(self)@.members[j],
                        ) >= f.error
                },
            },
    {
        self.sort();
        let n = self.members.len();
        if n == 0 {
            None
        } else {
            proof {
                assert(fit_member(self@.members[n - 1], self@.width, self@.height, self@.reference));
                assert forall|j: int| 0 <= j < n implies error_of(#[trigger] self@.members[j])
                    >= error_of(self@.members[n - 1]) by {}
            }
            self.members[n - 1].fitness()
        }
    }

    /// Re-sorts the members by ascending fitness and returns the row-major
    /// pixels of the last, the fittest; `None` when there are no members. The
    /// view is valid until the population next changes.
    pub fn best_pixels(&mut self) -> (r: Option<&[Pixel]>)
        requires
            old(self).wf(),
        ensures
            final(self).wf(),
            final(self)@.width == old(self)@.width,
            final(self)@.height == old(self)@.height,
            final(self)@.reference == old(self)@.reference,
            final(self)@.members.len() == old(self)@.members.len(),
            final(self)@.members.to_multiset() == old(self)@.members.to_multiset(),
            by_fitness(final(self)@.members),
            match r {
                None => old(self)@.members.len() == 0,
                Some(p) => {
                    &&& final(self)@.members.len() > 0
                    &&& p@ == final(self)@.members.last()@.pixels
                    &&& forall|j: int|
                        0 <= j < final(self)@.members.len() ==> error_of(
                            #[trigger] final(self)@.members[j],
                        ) >= error_of(final(self)@.members.last())
                },
            },
    {
        self.sort();
        let n = self.members.len();
        if n == 0 {
            None
        } else {
            proof {
                assert forall|j: int| 0 <= j < n implies error_of(#[trigger] self@.members[j])
                    >= error_of(self@.members[n - 1]) by {}
            }
            Some(self.members[n - 1].pixels())
        }
    }
}

} // verus!
