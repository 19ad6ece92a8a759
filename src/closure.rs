//! The symmetric-transitive closure of known equalities, each derived pair
//! with the chain of transitive steps that proves it.

use vstd::prelude::*;
use vstd::set_lib::*;
use crate::deduction::{
    chain_view, clone_chain, make_transitive_step, transitive_step, DeductionChain, StepView,
};
use crate::types::{AnchoredKey, HashableStatement, KeyView, StatementView};

verus! {

/// A pair of keys proved equal, with the chain proving it.
pub type EqualityLink = (AnchoredKey, AnchoredKey, DeductionChain);

/// The model of an equality link.
pub type LinkView = (KeyView, KeyView, Seq<StepView>);

pub open spec fn link_view(l: EqualityLink) -> LinkView {
    (l.0@, l.1@, chain_view(l.2@))
}

pub open spec fn links_view(s: Seq<EqualityLink>) -> Seq<LinkView> {
    s.map_values(|l: EqualityLink| link_view(l))
}

/// Whether `Equal(a, b)` is one of the facts.
pub open spec fn known_equal(facts: Seq<HashableStatement>, a: KeyView, b: KeyView) -> bool {
    exists|i: int| 0 <= i < facts.len() && #[trigger] facts[i]@ == StatementView::Equal(a, b)
}

/// Whether `s` concludes an equality whose right side is `z`.
pub open spec fn concludes_equal_to(s: StatementView, z: KeyView) -> bool {
    s is Equal && s->Equal_1 == z
}

/// Whether some step of `c` already concludes an equality ending at `z`.
pub open spec fn ends_at(c: Seq<StepView>, z: KeyView) -> bool {
    exists|j: int| 0 <= j < c.len() && concludes_equal_to(#[trigger] c[j].2, z)
}

/// The middle key of a transitive step: the right side of its first premise.
pub open spec fn step_middle(s: StepView) -> KeyView {
    s.1[0]->Equal_1
}

/// Whether `Equal(a, b)` or `Equal(b, a)` is one of the facts.
pub open spec fn linked(facts: Seq<HashableStatement>, a: KeyView, b: KeyView) -> bool {
    known_equal(facts, a, b) || known_equal(facts, b, a)
}

/// Whether `c` proves `x = z` from the facts: an empty chain when `x` and
/// `z` are linked by a known equality, in either direction; otherwise a
/// chain proving `x = y` followed by the transitive step to a key `z` linked
/// to `y`, where `z` is not `x` and no earlier step already ended at `z`.
pub open spec fn reachable(facts: Seq<HashableStatement>, x: KeyView, z: KeyView, c: Seq<StepView>) -> bool
    decreases c.len(),
{
    if c.len() == 0 {
        linked(facts, x, z)
    } else {
        let prev = c.drop_last();
        let y = step_middle(c.last());
        &&& c.last() == transitive_step(x, y, z)
        &&& reachable(facts, x, y, prev)
        &&& linked(facts, y, z)
        &&& z != x
        &&& !ends_at(prev, z)
    }
}

pub open spec fn link_reachable(facts: Seq<HashableStatement>, l: LinkView) -> bool {
    reachable(facts, l.0, l.1, l.2)
}

/// Whether a known statement `f` extends link `l` forward: `f` is
/// `Equal(y, z)` for the end `y` of `l`, `z` is not the start of `l`, and
/// no step of `l` ended at `z`.
pub open spec fn extends_forward(l: LinkView, f: StatementView) -> bool {
    f is Equal && f->Equal_0 == l.1 && f->Equal_1 != l.0 && !ends_at(l.2, f->Equal_1)
}

/// Whether a known statement `f` extends link `l` backward: `f` is
/// `Equal(z, y)` for the end `y` of `l`, `z` is not the start of `l`, and
/// no step of `l` ended at `z`.
pub open spec fn extends_backward(l: LinkView, f: StatementView) -> bool {
    f is Equal && f->Equal_1 == l.1 && f->Equal_0 != l.0 && !ends_at(l.2, f->Equal_0)
}

/// The link that extends `l` by one transitive step to `z`.
pub open spec fn extension(l: LinkView, z: KeyView) -> LinkView {
    (l.0, z, l.2.push(transitive_step(l.0, l.1, z)))
}

proof fn lemma_contains_push<A>(s: Seq<A>, a: A)
    ensures
        forall|b: A| #[trigger] s.push(a).contains(b) <==> (s.contains(b) || b == a),
{
    assert forall|b: A| #[trigger] s.push(a).contains(b) <==> (s.contains(b) || b == a) by {
        if s.contains(b) {
            let i = choose|i: int| 0 <= i < s.len() && s[i] == b;
            assert(s.push(a)[i] == b);
        }
        if b == a {
            assert(s.push(a)[s.len() as int] == b);
        }
        if s.push(a).contains(b) {
            let i = choose|i: int| 0 <= i < s.len() + 1 && s.push(a)[i] == b;
            if i < s.len() {
                assert(s[i] == b);
            }
        }
    }
}

proof fn lemma_contains_concat<A>(s: Seq<A>, t: Seq<A>)
    ensures
        forall|b: A| #[trigger] (s + t).contains(b) <==> (s.contains(b) || t.contains(b)),
{
    assert forall|b: A| #[trigger] (s + t).contains(b) <==> (s.contains(b) || t.contains(b)) by {
        if s.contains(b) {
            let i = choose|i: int| 0 <= i < s.len() && s[i] == b;
            assert((s + t)[i] == b);
        }
        if t.contains(b) {
            let i = choose|i: int| 0 <= i < t.len() && t[i] == b;
            assert((s + t)[s.len() + i] == b);
        }
        if (s + t).contains(b) {
            let i = choose|i: int| 0 <= i < s.len() + t.len() && (s + t)[i] == b;
            if i < s.len() {
                assert(s[i] == b);
            } else {
                assert(t[i - s.len()] == b);
            }
        }
    }
}

/// Whether some step of `chain` already concludes an equality ending at `z`.
fn chain_ends_at(chain: &DeductionChain, z: &AnchoredKey) -> (r: bool)
    ensures
        r == ends_at(chain_view(chain@), z@),
{
    let mut j: usize = 0;
    while j < chain.len()
        invariant
            j <= chain.len(),
            forall|j2: int| 0 <= j2 < j ==> !concludes_equal_to(chain_view(chain@)[j2].2, z@),
        decreases chain.len() - j,
    {
        if let HashableStatement::Equal(_, end) = &chain[j].2 {
            if *end == *z {
                assert(concludes_equal_to(chain_view(chain@)[j as int].2, z@));
                return true;
            }
        }
        j += 1;
    }
    false
}

/// The links that need no step: both directions of every known equality.
fn base_links(facts: &Vec<HashableStatement>) -> (r: Vec<EqualityLink>)
    ensures
        forall|i: int| 0 <= i < r.len() ==> link_reachable(facts@, #[trigger] link_view(r@[i]))
            && link_view(r@[i]).2.len() == 0,
        forall|x: KeyView, z: KeyView|
            #[trigger] reachable(facts@, x, z, Seq::empty()) ==> links_view(r@).contains(
                (x, z, Seq::<StepView>::empty()),
            ),
{
    let mut r: Vec<EqualityLink> = Vec::new();
    let mut j: usize = 0;
    while j < facts.len()
        invariant
            j <= facts.len(),
            forall|i: int| 0 <= i < r.len() ==> link_reachable(facts@, #[trigger] link_view(r@[i]))
                && link_view(r@[i]).2.len() == 0,
            forall|j2: int|
                0 <= j2 < j && (#[trigger] facts@[j2])@ is Equal ==> links_view(r@).contains(
                    (facts@[j2]@->Equal_0, facts@[j2]@->Equal_1, Seq::<StepView>::empty()),
                ) && links_view(r@).contains(
                    (facts@[j2]@->Equal_1, facts@[j2]@->Equal_0, Seq::<StepView>::empty()),
                ),
        decreases facts.len() - j,
    {
        if let HashableStatement::Equal(a, b) = &facts[j] {
            assert(known_equal(facts@, a@, b@)) by {
                assert(facts@[j as int]@ == StatementView::Equal(a@, b@));
            }
            let ghost before = links_view(r@);
            let forward: EqualityLink = (a.clone(), b.clone(), Vec::new());
            r.push(forward);
            assert(links_view(r@) =~= before.push(link_view(forward)));
            assert(chain_view(forward.2@) =~= Seq::<StepView>::empty());
            proof {
                lemma_contains_push(before, link_view(forward));
            }
            let ghost middle = links_view(r@);
            let backward: EqualityLink = (b.clone(), a.clone(), Vec::new());
            r.push(backward);
            assert(links_view(r@) =~= middle.push(link_view(backward)));
            assert(chain_view(backward.2@) =~= Seq::<StepView>::empty());
            proof {
                lemma_contains_push(middle, link_view(backward));
            }
        }
        j += 1;
    }
    assert forall|x: KeyView, z: KeyView|
        #[trigger] reachable(facts@, x, z, Seq::empty()) implies links_view(r@).contains(
        (x, z, Seq::<StepView>::empty()),
    ) by {
        if known_equal(facts@, x, z) {
            let i = choose|i: int| 0 <= i < facts.len() && #[trigger] facts@[i]@ == StatementView::Equal(x, z);
            assert(facts@[i]@ is Equal);
        } else {
            let i = choose|i: int| 0 <= i < facts.len() && #[trigger] facts@[i]@ == StatementView::Equal(z, x);
            assert(facts@[i]@ is Equal);
        }
    }
    r
}

/// Every link one transitive step longer than a link of `level`, through a
/// known equality read in either direction.
fn extend_links(facts: &Vec<HashableStatement>, level: &Vec<EqualityLink>, Ghost(k): Ghost<nat>) -> (r:
    Vec<EqualityLink>)
    requires
        forall|i: int|
            0 <= i < level.len() ==> link_reachable(facts@, #[trigger] link_view(level@[i]))
                && link_view(level@[i]).2.len() == k,
    ensures
        forall|i: int|
            0 <= i < r.len() ==> link_reachable(facts@, #[trigger] link_view(r@[i]))
                && link_view(r@[i]).2.len() == k + 1,
        forall|i: int, j: int|
            0 <= i < level.len() && 0 <= j < facts.len() && extends_forward(
                #[trigger] link_view(level@[i]),
                #[trigger] facts@[j]@,
            ) ==> links_view(r@).contains(extension(link_view(level@[i]), facts@[j]@->Equal_1)),
        forall|i: int, j: int|
            0 <= i < level.len() && 0 <= j < facts.len() && extends_backward(
                #[trigger] link_view(level@[i]),
                #[trigger] facts@[j]@,
            ) ==> links_view(r@).contains(extension(link_view(level@[i]), facts@[j]@->Equal_0)),
{
    let mut r: Vec<EqualityLink> = Vec::new();
    let mut i: usize = 0;
    while i < level.len()
        invariant
            i <= level.len(),
            forall|i2: int|
                0 <= i2 < level.len() ==> link_reachable(facts@, #[trigger] link_view(level@[i2]))
                    && link_view(level@[i2]).2.len() == k,
            forall|i2: int|
                0 <= i2 < r.len() ==> link_reachable(facts@, #[trigger] link_view(r@[i2]))
                    && link_view(r@[i2]).2.len() == k + 1,
            forall|i2: int, j: int|
                0 <= i2 < i && 0 <= j < facts.len() && extends_forward(
                    #[trigger] link_view(level@[i2]),
                    #[trigger] facts@[j]@,
                ) ==> links_view(r@).contains(extension(link_view(level@[i2]), facts@[j]@->Equal_1)),
            forall|i2: int, j: int|
                0 <= i2 < i && 0 <= j < facts.len() && extends_backward(
                    #[trigger] link_view(level@[i2]),
                    #[trigger] facts@[j]@,
                ) ==> links_view(r@).contains(extension(link_view(level@[i2]), facts@[j]@->Equal_0)),
        decreases level.len() - i,
    {
        let (x, y, chain) = &level[i];
        let ghost l = link_view(level@[i as int]);
        let mut j: usize = 0;
        while j < facts.len()
            invariant
                i < level.len(),
                j <= facts.len(),
                l == link_view(level@[i as int]),
                l == (x@, y@, chain_view(chain@)),
                link_reachable(facts@, l),
                l.2.len() == k,
                forall|i2: int|
                    0 <= i2 < r.len() ==> link_reachable(facts@, #[trigger] link_view(r@[i2]))
                        && link_view(r@[i2]).2.len() == k + 1,
                forall|i2: int, j2: int|
                    0 <= i2 < i && 0 <= j2 < facts.len() && extends_forward(
                        #[trigger] link_view(level@[i2]),
                        #[trigger] facts@[j2]@,
                    ) ==> links_view(r@).contains(extension(link_view(level@[i2]), facts@[j2]@->Equal_1)),
                forall|i2: int, j2: int|
                    0 <= i2 < i && 0 <= j2 < facts.len() && extends_backward(
                        #[trigger] link_view(level@[i2]),
                        #[trigger] facts@[j2]@,
                    ) ==> links_view(r@).contains(extension(link_view(level@[i2]), facts@[j2]@->Equal_0)),
                forall|j2: int|
                    0 <= j2 < j && extends_forward(l, #[trigger] facts@[j2]@) ==> links_view(r@).contains(
                        extension(l, facts@[j2]@->Equal_1),
                    ),
                forall|j2: int|
                    0 <= j2 < j && extends_backward(l, #[trigger] facts@[j2]@) ==> links_view(r@).contains(
                        extension(l, facts@[j2]@->Equal_0),
                    ),
            decreases facts.len() - j,
        {
            if let HashableStatement::Equal(a, b) = &facts[j] {
                assert(facts@[j as int]@ == StatementView::Equal(a@, b@));
                if *a == *y && *b != *x && !chain_ends_at(chain, b) {
                    self::push_extension(facts, &mut r, x, y, chain, b, Ghost(k));
                }
                if *b == *y && *a != *x && !chain_ends_at(chain, a) {
                    self::push_extension(facts, &mut r, x, y, chain, a, Ghost(k));
                }
            }
            j += 1;
        }
        i += 1;
    }
    r
}

/// Appends the link extending `(x, y, chain)` by one transitive step to `z`.
fn push_extension(
    facts: &Vec<HashableStatement>,
    r: &mut Vec<EqualityLink>,
    x: &AnchoredKey,
    y: &AnchoredKey,
    chain: &DeductionChain,
    z: &AnchoredKey,
    Ghost(k): Ghost<nat>,
)
    requires
        reachable(facts@, x@, y@, chain_view(chain@)),
        chain_view(chain@).len() == k,
        linked(facts@, y@, z@),
        z@ != x@,
        !ends_at(chain_view(chain@), z@),
        forall|i2: int|
            0 <= i2 < old(r).len() ==> link_reachable(facts@, #[trigger] link_view(old(r)@[i2]))
                && link_view(old(r)@[i2]).2.len() == k + 1,
    ensures
        forall|i2: int|
            0 <= i2 < final(r).len() ==> link_reachable(facts@, #[trigger] link_view(final(r)@[i2]))
                && link_view(final(r)@[i2]).2.len() == k + 1,
        forall|m: LinkView|
            #[trigger] links_view(final(r)@).contains(m) <==> (links_view(old(r)@).contains(m)
                || m == extension((x@, y@, chain_view(chain@)), z@)),
{
    let ghost l: LinkView = (x@, y@, chain_view(chain@));
    let mut longer = clone_chain(chain);
    let ghost prev = chain_view(longer@);
    longer.push(make_transitive_step(x, y, z));
    let link: EqualityLink = (x.clone(), z.clone(), longer);
    let ghost lv = link_view(link);
    assert(lv == extension(l, z@)) by {
        assert(chain_view(longer@) =~= prev.push(transitive_step(x@, y@, z@)));
    }
    assert(link_reachable(facts@, lv)) by {
        assert(lv.2.drop_last() =~= l.2);
    }
    let ghost before = links_view(r@);
    r.push(link);
    assert(links_view(r@) =~= before.push(lv));
    proof {
        lemma_contains_push(before, lv);
    }
}

/// Whether `e` is one side of some known equality.
pub open spec fn known_side(facts: Seq<HashableStatement>, e: KeyView) -> bool {
    exists|i: int|
        0 <= i < facts.len() && (#[trigger] facts[i]@) is Equal && (facts[i]@->Equal_0 == e
            || facts[i]@->Equal_1 == e)
}

/// Every step of a proving chain concludes `x = e` for a distinct `e` that is
/// one side of a known equality, and the last one concludes `x = z`.
proof fn lemma_reachable_shape(facts: Seq<HashableStatement>, x: KeyView, z: KeyView, c: Seq<StepView>)
    requires
        reachable(facts, x, z, c),
    ensures
        forall|j: int|
            0 <= j < c.len() ==> (#[trigger] c[j]).2 == StatementView::Equal(x, c[j].2->Equal_1)
                && known_side(facts, c[j].2->Equal_1),
        forall|j1: int, j2: int|
            0 <= j1 < j2 < c.len() ==> (#[trigger] c[j1]).2->Equal_1 != (#[trigger] c[j2]).2->Equal_1,
        c.len() > 0 ==> c.last().2->Equal_1 == z,
    decreases c.len(),
{
    if c.len() > 0 {
        let prev = c.drop_last();
        let y = step_middle(c.last());
        lemma_reachable_shape(facts, x, y, prev);
        assert(known_side(facts, z)) by {
            if known_equal(facts, y, z) {
                let i = choose|i: int| 0 <= i < facts.len() && #[trigger] facts[i]@ == StatementView::Equal(y, z);
                assert(facts[i]@ is Equal && facts[i]@->Equal_1 == z);
            } else {
                let i = choose|i: int| 0 <= i < facts.len() && #[trigger] facts[i]@ == StatementView::Equal(z, y);
                assert(facts[i]@ is Equal && facts[i]@->Equal_0 == z);
            }
        }
        assert forall|j: int| 0 <= j < prev.len() implies (#[trigger] c[j]).2->Equal_1 != z by {
            assert(c[j] == prev[j]);
            assert(!concludes_equal_to(prev[j].2, z));
        }
        assert forall|j: int|
            0 <= j < c.len() implies (#[trigger] c[j]).2 == StatementView::Equal(x, c[j].2->Equal_1)
                && known_side(facts, c[j].2->Equal_1) by {
            if j < prev.len() {
                assert(c[j] == prev[j]);
            }
        }
        assert forall|j1: int, j2: int|
            0 <= j1 < j2 < c.len() implies (#[trigger] c[j1]).2->Equal_1 != (#[trigger] c[j2]).2->Equal_1 by {
            assert(c[j1] == prev[j1]);
            if j2 < prev.len() {
                assert(c[j2] == prev[j2]);
            }
        }
    }
}

/// A proving chain has at most two steps per known statement, one for each
/// of its sides.
proof fn lemma_reachable_length(facts: Seq<HashableStatement>, x: KeyView, z: KeyView, c: Seq<StepView>)
    requires
        reachable(facts, x, z, c),
    ensures
        c.len() <= 2 * facts.len(),
{
    lemma_reachable_shape(facts, x, z, c);
    let ends = Seq::new(c.len(), |j: int| c[j].2->Equal_1);
    let lefts = facts.map_values(|f: HashableStatement| f@->Equal_0);
    let rights = lefts + facts.map_values(|f: HashableStatement| f@->Equal_1);
    assert(ends.no_duplicates()) by {
        assert forall|j1: int, j2: int| 0 <= j1 < ends.len() && 0 <= j2 < ends.len() && j1 != j2 implies ends[j1] != ends[j2] by {
            if j1 < j2 {
                assert(c[j1].2->Equal_1 != c[j2].2->Equal_1);
            } else {
                assert(c[j2].2->Equal_1 != c[j1].2->Equal_1);
            }
        }
    }
    assert(ends.to_set().subset_of(rights.to_set())) by {
        assert forall|e: KeyView| ends.to_set().contains(e) implies rights.to_set().contains(e) by {
            let j = choose|j: int| 0 <= j < ends.len() && ends[j] == e;
            assert(c[j].2 == StatementView::Equal(x, c[j].2->Equal_1));
            let i = choose|i: int|
                0 <= i < facts.len() && (#[trigger] facts[i]@) is Equal && (facts[i]@->Equal_0 == e
                    || facts[i]@->Equal_1 == e);
            if facts[i]@->Equal_0 == e {
                assert(rights[i] == e);
            } else {
                assert(rights[facts.len() + i] == e);
            }
        }
    }
    ends.unique_seq_to_set();
    rights.lemma_cardinality_of_set();
    vstd::seq_lib::seq_to_set_is_finite(rights);
    lemma_len_subset(ends.to_set(), rights.to_set());
}

/// A prefix of a proving chain proves `x` equal to some key.
proof fn lemma_reachable_prefix(
    facts: Seq<HashableStatement>,
    x: KeyView,
    z: KeyView,
    c: Seq<StepView>,
    k: nat,
) -> (y: KeyView)
    requires
        reachable(facts, x, z, c),
        k <= c.len(),
    ensures
        reachable(facts, x, y, c.subrange(0, k as int)),
    decreases c.len(),
{
    if k == c.len() {
        assert(c.subrange(0, k as int) =~= c);
        z
    } else {
        let prev = c.drop_last();
        assert(prev.subrange(0, k as int) =~= c.subrange(0, k as int));
        lemma_reachable_prefix(facts, x, step_middle(c.last()), prev, k)
    }
}

/// Every pair of keys connected by known equalities, once for each chain
/// that proves it: a link `(x, z, c)` is in the result exactly when `c`
/// proves `x = z` from the facts.
pub fn reachable_equal(facts: &Vec<HashableStatement>) -> (r: Vec<EqualityLink>)
    ensures
        forall|l: LinkView| #[trigger] links_view(r@).contains(l) <==> link_reachable(facts@, l),
{
    let mut all: Vec<EqualityLink> = Vec::new();
    let mut level = base_links(facts);
    let ghost mut k: nat = 0;
    assert forall|l: LinkView| link_reachable(facts@, l) && l.2.len() == 0 implies #[trigger] links_view(level@).contains(l) by {
        assert(l.2 =~= Seq::<StepView>::empty());
        assert(reachable(facts@, l.0, l.1, Seq::empty()));
    }
    assert forall|l: LinkView| #[trigger] links_view(level@).contains(l) implies link_reachable(facts@, l) && l.2.len() == 0 by {
        let i = choose|i: int| 0 <= i < links_view(level@).len() && links_view(level@)[i] == l;
        assert(link_view(level@[i]) == l);
    }
    while level.len() > 0
        invariant
            k <= 2 * facts.len() + 1,
            forall|i: int|
                0 <= i < level.len() ==> link_reachable(facts@, #[trigger] link_view(level@[i]))
                    && link_view(level@[i]).2.len() == k,
            forall|l: LinkView| #[trigger] links_view(level@).contains(l) ==> link_reachable(facts@, l) && l.2.len() == k,
            forall|l: LinkView| link_reachable(facts@, l) && l.2.len() == k ==> #[trigger] links_view(level@).contains(l),
            forall|l: LinkView| #[trigger] links_view(all@).contains(l) ==> link_reachable(facts@, l) && l.2.len() < k,
            forall|l: LinkView| link_reachable(facts@, l) && l.2.len() < k ==> #[trigger] links_view(all@).contains(l),
        decreases 2 * facts.len() + 1 - k,
    {
        proof {
            let l0 = link_view(level@[0]);
            lemma_reachable_length(facts@, l0.0, l0.1, l0.2);
        }
        let next = extend_links(facts, &level, Ghost(k));
        assert forall|l: LinkView| link_reachable(facts@, l) && l.2.len() == k + 1 implies #[trigger] links_view(next@).contains(l) by {
            let prev = l.2.drop_last();
            let y = step_middle(l.2.last());
            assert(links_view(level@).contains((l.0, y, prev)));
            let i = choose|i: int| 0 <= i < links_view(level@).len() && links_view(level@)[i] == (l.0, y, prev);
            assert(link_view(level@[i]) == (l.0, y, prev));
            assert(prev.push(l.2.last()) =~= l.2);
            assert(extension(link_view(level@[i]), l.1) == l);
            if known_equal(facts@, y, l.1) {
                let j = choose|j: int| 0 <= j < facts.len() && #[trigger] facts@[j]@ == StatementView::Equal(y, l.1);
                assert(extends_forward(link_view(level@[i]), facts@[j]@));
            } else {
                let j = choose|j: int| 0 <= j < facts.len() && #[trigger] facts@[j]@ == StatementView::Equal(l.1, y);
                assert(extends_backward(link_view(level@[i]), facts@[j]@));
            }
        }
        assert forall|l: LinkView| #[trigger] links_view(next@).contains(l) implies link_reachable(facts@, l) && l.2.len() == k + 1 by {
            let i = choose|i: int| 0 <= i < links_view(next@).len() && links_view(next@)[i] == l;
            assert(link_view(next@[i]) == l);
        }
        let ghost before = links_view(all@);
        let ghost added = links_view(level@);
        all.append(&mut level);
        assert(links_view(all@) =~= before + added);
        proof {
            lemma_contains_concat(before, added);
            k = k + 1;
        }
        level = next;
    }
    assert forall|l: LinkView| link_reachable(facts@, l) implies #[trigger] links_view(all@).contains(l) by {
        if l.2.len() >= k {
            let y = lemma_reachable_prefix(facts@, l.0, l.1, l.2, k);
            assert(links_view(level@).contains((l.0, y, l.2.subrange(0, k as int))));
        }
    }
    all
}

} // verus!
