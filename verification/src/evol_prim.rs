//! Evolution primitives: the alphabet, genomes, organisms and the decoders
//! that turn a genome prefix into numbers.

#![allow(non_snake_case)]

use crate::random::{gen_below, Probability};
use rand::rngs::StdRng;
use vstd::prelude::*;

verus! {

/// A genome: an ordered sequence of symbols, possibly empty.
pub type BaseSeq = Vec<Base>;

/// One symbol of the genome alphabet. Each symbol carries two bits; the order
/// `A < C < T < G` fixes which.
#[derive(Debug, Copy, Clone, PartialEq, Eq, Structural)]
pub enum Base {
    A,
    C,
    T,
    G,
}

impl Base {
    /// The two-bit value of a symbol.
    pub open spec fn code(self) -> nat {
        match self {
            Base::A => 0,
            Base::C => 1,
            Base::T => 2,
            Base::G => 3,
        }
    }

    /// The two-bit value of a symbol, as a byte.
    pub fn to_code(self) -> (code: u8)
        ensures
            code == self.code(),
    {
        match self {
            Base::A => 0,
            Base::C => 1,
            Base::T => 2,
            Base::G => 3,
        }
    }

    /// The symbol with the given two-bit value; values above 3 give `G`.
    pub fn from_code(code: u8) -> (base: Base)
        ensures
            code < 4 ==> base.code() == code,
            code >= 4 ==> base == Base::G,
    {
        match code {
            0 => Base::A,
            1 => Base::C,
            2 => Base::T,
            _ => Base::G,
        }
    }
}

/// Whether the genome starts with the given symbols.
pub fn starts_with(s: &BaseSeq, prefix: &[Base]) -> (yes: bool)
    ensures
        yes == prefix@.is_prefix_of(s@),
{
    if prefix.len() > s.len() {
        return false;
    }
    let mut i: usize = 0;
    while i < prefix.len()
        invariant
            i <= prefix@.len() <= s@.len(),
            forall|k: int| 0 <= k < i ==> prefix@[k] == s@[k],
        decreases prefix@.len() - i,
    {
        if prefix[i] != s[i] {
            return false;
        }
        i += 1;
    }
    assert(prefix@ == s@.subrange(0, prefix@.len() as int));
    true
}

/// Draws one symbol, each of the four equally likely.
pub fn random_base(rng: &mut StdRng) -> Base {
    Base::from_code(gen_below(rng, 4))
}

/// What becomes of one symbol of a genome in its mutated copy.
#[derive(Debug, Copy, Clone, PartialEq, Eq, Structural)]
pub enum Fate {
    /// The symbol is dropped.
    Deleted,
    /// The symbol is copied forward unchanged.
    Copied,
    /// A freshly drawn symbol takes its place.
    Replaced(Base),
}

/// The random decisions taken at one position of a genome: the
/// symbol inserted before it, if any, and the fate of the symbol itself.
#[derive(Debug, Copy, Clone, PartialEq, Eq, Structural)]
pub struct SiteEdit {
    pub inserted: Option<Base>,
    pub fate: Fate,
}

/// The symbols that an insertion opportunity contributes.
pub open spec fn insertion_output(inserted: Option<Base>) -> Seq<Base> {
    match inserted {
        Some(b) => seq![b],
        None => Seq::empty(),
    }
}

/// An insertion outcome that chance `p` allows: none at chance zero, one at
/// chance one.
pub open spec fn insertion_allowed(inserted: Option<Base>, p: Probability) -> bool {
    &&& p.is_never() ==> inserted is None
    &&& p.is_certain() ==> inserted is Some
}

impl SiteEdit {
    /// The symbols that this position contributes to the mutated copy.
    pub open spec fn output(self, symbol: Base) -> Seq<Base> {
        let head = insertion_output(self.inserted);
        match self.fate {
            Fate::Deleted => head,
            Fate::Copied => head.push(symbol),
            Fate::Replaced(b) => head.push(b),
        }
    }

    /// The decisions that the three chances allow. A substitution is tried
    /// only on a symbol that was not deleted.
    pub open spec fn allowed(
        self,
        insertion_prob: Probability,
        deletion_prob: Probability,
        base_change_prob: Probability,
    ) -> bool {
        &&& insertion_allowed(self.inserted, insertion_prob)
        &&& deletion_prob.is_never() ==> self.fate != Fate::Deleted
        &&& deletion_prob.is_certain() ==> self.fate == Fate::Deleted
        &&& base_change_prob.is_never() ==> !(self.fate is Replaced)
        &&& base_change_prob.is_certain() ==> self.fate != Fate::Copied
    }
}

/// The genome that results from applying one edit to each symbol of `seq`,
/// in order.
pub open spec fn edited(seq: Seq<Base>, edits: Seq<SiteEdit>) -> Seq<Base>
    recommends
        edits.len() == seq.len(),
    decreases edits.len(),
{
    if edits.len() == 0 {
        Seq::empty()
    } else {
        edited(seq.drop_last(), edits.drop_last()) + edits.last().output(seq.last())
    }
}

/// `new` is the copy of `seq` that the edits `edits`, followed by the
/// trailing insertion `tail`, produce, and the three chances allow each of
/// these decisions.
pub open spec fn mutation_explained_by(
    new: Seq<Base>,
    seq: Seq<Base>,
    insertion_prob: Probability,
    deletion_prob: Probability,
    base_change_prob: Probability,
    edits: Seq<SiteEdit>,
    tail: Option<Base>,
) -> bool {
    &&& edits.len() == seq.len()
    &&& forall|i: int|
        0 <= i < edits.len() ==> (#[trigger] edits[i]).allowed(
            insertion_prob,
            deletion_prob,
            base_change_prob,
        )
    &&& insertion_allowed(tail, insertion_prob)
    &&& new == edited(seq, edits) + insertion_output(tail)
}

/// `new` can come out of mutating `seq` under the three chances: some run of
/// decisions that the chances allow produces it.
pub open spec fn is_mutation_of(
    new: Seq<Base>,
    seq: Seq<Base>,
    insertion_prob: Probability,
    deletion_prob: Probability,
    base_change_prob: Probability,
) -> bool {
    exists|edits: Seq<SiteEdit>, tail: Option<Base>| #[trigger]
        mutation_explained_by(
            new,
            seq,
            insertion_prob,
            deletion_prob,
            base_change_prob,
            edits,
            tail,
        )
}

/// Edits that insert nothing, delete nothing and replace nothing leave the
/// genome as it is.
proof fn lemma_idle_edits(seq: Seq<Base>, edits: Seq<SiteEdit>)
    requires
        edits.len() == seq.len(),
        forall|i: int|
            0 <= i < edits.len() ==> (#[trigger] edits[i]).inserted is None && edits[i].fate
                == Fate::Copied,
    ensures
        edited(seq, edits) == seq,
    decreases edits.len(),
{
    if edits.len() > 0 {
        lemma_idle_edits(seq.drop_last(), edits.drop_last());
        assert(edits.last() == edits[edits.len() - 1]);
        assert(seq.drop_last().push(seq.last()) == seq);
    }
}

/// Every edit contributes at most two symbols, so a mutated copy has at most
/// two symbols per symbol of the genome.
proof fn lemma_edited_len(seq: Seq<Base>, edits: Seq<SiteEdit>)
    requires
        edits.len() == seq.len(),
    ensures
        edited(seq, edits).len() <= 2 * seq.len(),
    decreases edits.len(),
{
    if edits.len() > 0 {
        lemma_edited_len(seq.drop_last(), edits.drop_last());
    }
}

/// Mutation identity: with all three chances zero, the only possible outcome
/// of a mutation is the genome itself.
pub proof fn lemma_mutation_identity(
    new: Seq<Base>,
    seq: Seq<Base>,
    insertion_prob: Probability,
    deletion_prob: Probability,
    base_change_prob: Probability,
)
    requires
        insertion_prob.is_never(),
        deletion_prob.is_never(),
        base_change_prob.is_never(),
        is_mutation_of(new, seq, insertion_prob, deletion_prob, base_change_prob),
    ensures
        new == seq,
{
    let (edits, tail) = choose|edits: Seq<SiteEdit>, tail: Option<Base>| #[trigger]
        mutation_explained_by(
            new,
            seq,
            insertion_prob,
            deletion_prob,
            base_change_prob,
            edits,
            tail,
        );
    assert forall|i: int| 0 <= i < edits.len() implies (#[trigger] edits[i]).inserted is None
        && edits[i].fate == Fate::Copied by {
        assert(edits[i].allowed(insertion_prob, deletion_prob, base_change_prob));
    }
    lemma_idle_edits(seq, edits);
}

/// A mutated copy holds at most two symbols per symbol of the genome, and one more.
pub proof fn lemma_mutation_len(
    new: Seq<Base>,
    seq: Seq<Base>,
    insertion_prob: Probability,
    deletion_prob: Probability,
    base_change_prob: Probability,
)
    requires
        is_mutation_of(new, seq, insertion_prob, deletion_prob, base_change_prob),
    ensures
        new.len() <= 2 * seq.len() + 1,
{
    let (edits, tail) = choose|edits: Seq<SiteEdit>, tail: Option<Base>| #[trigger]
        mutation_explained_by(
            new,
            seq,
            insertion_prob,
            deletion_prob,
            base_change_prob,
            edits,
            tail,
        );
    lemma_edited_len(seq, edits);
}

/// One insertion opportunity: with chance `insertion_prob`, a freshly drawn
/// symbol.
pub fn draw_insertion(rng: &mut StdRng, insertion_prob: Probability) -> (inserted: Option<Base>)
    ensures
        insertion_allowed(inserted, insertion_prob),
{
    if insertion_prob.sample(rng) {
        Some(random_base(rng))
    } else {
        None
    }
}

/// Draws the decisions for one position, in a fixed order: the insertion
/// check, then the deletion check, then, for a symbol that stays, the
/// substitution check.
pub fn draw_site_edit(
    rng: &mut StdRng,
    insertion_prob: Probability,
    deletion_prob: Probability,
    base_change_prob: Probability,
) -> (edit: SiteEdit)
    ensures
        edit.allowed(insertion_prob, deletion_prob, base_change_prob),
{
    let inserted = draw_insertion(rng, insertion_prob);
    let fate = if deletion_prob.sample(rng) {
        Fate::Deleted
    } else if base_change_prob.sample(rng) {
        Fate::Replaced(random_base(rng))
    } else {
        Fate::Copied
    };
    SiteEdit { inserted, fate }
}

/// Appends to `new` what one position contributes: the inserted symbol, if
/// any, then the symbol itself or its replacement unless it was deleted.
pub fn apply_site_edit(new: &mut BaseSeq, symbol: Base, edit: SiteEdit)
    ensures
        final(new)@ == old(new)@ + edit.output(symbol),
{
    if let Some(b) = edit.inserted {
        new.push(b);
    }
    match edit.fate {
        Fate::Deleted => {},
        Fate::Copied => {
            new.push(symbol);
        },
        Fate::Replaced(b) => {
            new.push(b);
        },
    }
}

/// Copies a genome with random mutations. The symbols are scanned in order.
/// Before each symbol a random symbol is inserted with chance
/// `insertion_prob`; the symbol itself is dropped with chance `deletion_prob`
/// and otherwise copied, with chance `base_change_prob` replaced by a random
/// symbol. After the last symbol there is one more insertion opportunity.
/// The genome that is copied is left untouched.
pub fn clone_with_mutation(
    seq: &BaseSeq,
    rng: &mut StdRng,
    insertion_prob: Probability,
    deletion_prob: Probability,
    base_change_prob: Probability,
) -> (new: BaseSeq)
    ensures
        is_mutation_of(new@, seq@, insertion_prob, deletion_prob, base_change_prob),
        insertion_prob.is_never() && deletion_prob.is_never() && base_change_prob.is_never()
            ==> new@ == seq@,
        new@.len() <= 2 * seq@.len() + 1,
{
    let mut new = BaseSeq::new();
    let ghost mut edits: Seq<SiteEdit> = Seq::empty();
    let mut i: usize = 0;
    while i < seq.len()
        invariant
            i <= seq@.len(),
            edits.len() == i,
            forall|k: int|
                0 <= k < edits.len() ==> (#[trigger] edits[k]).allowed(
                    insertion_prob,
                    deletion_prob,
                    base_change_prob,
                ),
            new@ == edited(seq@.take(i as int), edits),
        decreases seq@.len() - i,
    {
        let edit = draw_site_edit(rng, insertion_prob, deletion_prob, base_change_prob);
        apply_site_edit(&mut new, seq[i], edit);
        proof {
            let grown = edits.push(edit);
            assert(grown.drop_last() == edits);
            assert(seq@.take(i + 1).drop_last() == seq@.take(i as int));
            edits = grown;
        }
        i += 1;
    }
    let ghost scanned = new@;
    let tail = draw_insertion(rng, insertion_prob);
    if let Some(b) = tail {
        new.push(b);
    }
    proof {
        assert(seq@.take(i as int) == seq@);
        assert(new@ == scanned + insertion_output(tail));
        assert(mutation_explained_by(
            new@,
            seq@,
            insertion_prob,
            deletion_prob,
            base_change_prob,
            edits,
            tail,
        ));
        lemma_mutation_len(new@, seq@, insertion_prob, deletion_prob, base_change_prob);
        if insertion_prob.is_never() && deletion_prob.is_never() && base_change_prob.is_never() {
            lemma_mutation_identity(
                new@,
                seq@,
                insertion_prob,
                deletion_prob,
                base_change_prob,
            );
        }
    }
    new
}

/// A genome together with the phenotype that was built from it at birth.
#[derive(Debug, Clone)]
pub struct Organism<O> {
    pub genes: BaseSeq,
    pub body: O,
}

/// Exogenous state that evolves independently of the organisms.
pub trait Environment {
    /// The states that one advance may lead to from `self`. An environment
    /// that does not say otherwise may advance to any state.
    open spec fn advances_to(&self, next: &Self) -> bool {
        true
    }

    /// Advances the environment by one tick.
    fn update(&mut self, rng: &mut StdRng)
        ensures
            old(self).advances_to(final(self)),
    ;
}

/// The empty environment: there is nothing to advance, and nothing is drawn.
impl Environment for () {
    fn update(&mut self, rng: &mut StdRng)
        ensures
            *final(rng) == *old(rng),
    {
    }
}

/// The code of the symbol at position `i`, or 0 past the end of the genome.
pub open spec fn code_at(bases: Seq<Base>, i: int) -> nat {
    if 0 <= i < bases.len() {
        bases[i].code()
    } else {
        0
    }
}

/// The byte packed from the first four symbols, the first symbol in the two
/// lowest bits. Missing symbols contribute zero bits.
pub open spec fn packed_byte(bases: Seq<Base>) -> nat {
    code_at(bases, 0) + 4 * code_at(bases, 1) + 16 * code_at(bases, 2) + 64 * code_at(bases, 3)
}

/// Reads up to four leading symbols as one unsigned byte, two bits per symbol,
/// little-endian: the first symbol fills the lowest two bits.
pub fn read4BasesToUnsignedByte(bases: &[Base]) -> (byte: u8)
    ensures
        byte == packed_byte(bases@),
{
    assert(bases@.skip(0) == bases@);
    read4_bases_at(bases, 0)
}

/// What is left of a genome from position `start` on; nothing where `start`
/// lies past its end.
pub open spec fn rest_from(bases: Seq<Base>, start: usize) -> Seq<Base> {
    bases.skip(
        if start <= bases.len() {
            start as int
        } else {
            bases.len() as int
        },
    )
}

/// Reads up to four symbols from position `start` on as one unsigned byte,
/// packed as `read4BasesToUnsignedByte` packs the leading four. Symbols past
/// the end of the genome count as zero, so a start at or past the end reads
/// zero.
pub fn read4_bases_at(bases: &[Base], start: usize) -> (byte: u8)
    ensures
        byte == packed_byte(rest_from(bases@, start)),
{
    let from = if start <= bases.len() {
        start
    } else {
        bases.len()
    };
    let left = bases.len() - from;
    let ghost rest = rest_from(bases@, start);
    let mut byte: u8 = 0;
    let mut i: usize = 4;
    while i > 0
        invariant
            i <= 4,
            from <= bases.len(),
            left == bases.len() - from,
            rest == bases@.skip(from as int),
            i == 4 ==> byte == 0,
            i == 3 ==> byte == code_at(rest, 3),
            i == 2 ==> byte == code_at(rest, 2) + 4 * code_at(rest, 3),
            i == 1 ==> byte == code_at(rest, 1) + 4 * code_at(rest, 2) + 16 * code_at(rest, 3),
            i == 0 ==> byte == packed_byte(rest),
        decreases i,
    {
        i -= 1;
        let code: u8 = if i < left {
            bases[from + i].to_code()
        } else {
            0
        };
        assert(byte < 64 ==> byte << 2 == byte * 4) by (bit_vector);
        byte <<= 2;
        byte += code;
    }
    byte
}

/// The signed value of a byte read as two's complement: `((byte + 128) mod
/// 256) - 128`.
pub open spec fn centred(byte: u8) -> int {
    (byte + 128) % 256 - 128
}

/// Maps a byte into the feature range [-1, 1), returned as the number of
/// 128ths: the feature is the result divided by 128.
pub fn byteToFeatureSpace(byte: u8) -> (numerator: i32)
    ensures
        numerator == centred(byte),
        -128 <= numerator < 128,
{
    byte.wrapping_add(128) as i32 - 128
}

} // verus!
