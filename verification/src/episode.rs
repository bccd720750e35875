//! Episode identities and their total order.
//!
//! An episode is either numbered (season and episode coordinates) or a
//! "special" (bonus/OVA/credit content identified by a free-text label).
//! The total order compares numbered episodes by season first, then episode;
//! any numbered episode is greater than any special; specials compare by
//! label text. The whole comparison rule lives in `kind_le` so that the
//! tie-break policy is auditable in one place.

use vstd::prelude::*;

verus! {

use vstd::string::StrSliceExecFns;

/// A numbered episode coordinate: episode `ep` within season `s`.
#[derive(Clone, Copy, Debug, PartialEq, Eq, Structural, Hash)]
pub struct EpisodeNumbered {
    pub ep: u32,
    pub s: u32,
}

impl Default for EpisodeNumbered {
    /// The default identity is episode 1 of season 1.
    fn default() -> (r: Self)
        ensures
            r == (EpisodeNumbered { ep: 1u32, s: 1u32 }),
    {
        EpisodeNumbered { ep: 1, s: 1 }
    }
}

/// Season-major order on numbered episodes.
pub open spec fn num_le(a: EpisodeNumbered, b: EpisodeNumbered) -> bool {
    a.s < b.s || (a.s == b.s && a.ep <= b.ep)
}

impl EpisodeNumbered {
    /// Season-major comparison: season decides first, then episode.
    pub fn le(&self, other: &EpisodeNumbered) -> (r: bool)
        ensures
            r == num_le(*self, *other),
    {
        self.s < other.s || (self.s == other.s && self.ep <= other.ep)
    }
}

/// An episode identity: a numbered coordinate or a special's label.
#[derive(Clone, Debug, PartialEq, Eq, Hash)]
pub enum EpisodeKind {
    Numbered(EpisodeNumbered),
    Special(String),
}

/// The mathematical value of an `EpisodeKind`: labels become character
/// sequences.
#[verifier::ext_equal]
pub enum KindView {
    Numbered(EpisodeNumbered),
    Special(Seq<char>),
}

impl View for EpisodeKind {
    type V = KindView;

    open spec fn view(&self) -> KindView {
        match self {
            EpisodeKind::Numbered(n) => KindView::Numbered(*n),
            EpisodeKind::Special(label) => KindView::Special(label@),
        }
    }
}

impl Default for EpisodeKind {
    /// The default identity is `Numbered { season: 1, episode: 1 }`.
    fn default() -> (r: Self)
        ensures
            r@ == KindView::Numbered(EpisodeNumbered { ep: 1u32, s: 1u32 }),
    {
        EpisodeKind::Numbered(EpisodeNumbered { ep: 1, s: 1 })
    }
}

/// Lexicographic order on character sequences, by code point.
pub open spec fn lex_le(a: Seq<char>, b: Seq<char>) -> bool
    decreases a.len(),
{
    if a.len() == 0 {
        true
    } else if b.len() == 0 {
        false
    } else if a[0] < b[0] {
        true
    } else if a[0] > b[0] {
        false
    } else {
        lex_le(a.drop_first(), b.drop_first())
    }
}

/// The single centralized total order on episode identities:
/// specials come before numbered episodes, specials compare by label,
/// numbered episodes compare season-major.
pub open spec fn kind_le(a: KindView, b: KindView) -> bool {
    match (a, b) {
        (KindView::Special(x), KindView::Special(y)) => lex_le(x, y),
        (KindView::Special(_), KindView::Numbered(_)) => true,
        (KindView::Numbered(_), KindView::Special(_)) => false,
        (KindView::Numbered(x), KindView::Numbered(y)) => num_le(x, y),
    }
}

/// Strict version of the identity order.
pub open spec fn kind_lt(a: KindView, b: KindView) -> bool {
    kind_le(a, b) && a != b
}

pub proof fn lemma_lex_le_total(a: Seq<char>, b: Seq<char>)
    ensures
        lex_le(a, b) || lex_le(b, a),
    decreases a.len(),
{
    if a.len() == 0 {
        assert(lex_le(a, b));
    } else if b.len() == 0 {
        assert(lex_le(b, a));
    } else if a[0] < b[0] {
        assert(lex_le(a, b));
    } else if a[0] > b[0] {
        assert(lex_le(b, a));
    } else {
        lemma_lex_le_total(a.drop_first(), b.drop_first());
        assert(lex_le(a, b) == lex_le(a.drop_first(), b.drop_first()));
        assert(lex_le(b, a) == lex_le(b.drop_first(), a.drop_first()));
    }
}

pub proof fn lemma_lex_le_antisym(a: Seq<char>, b: Seq<char>)
    requires
        lex_le(a, b),
        lex_le(b, a),
    ensures
        a == b,
    decreases a.len(),
{
    if a.len() == 0 {
        assert(b.len() == 0);
        assert(a =~= b);
    } else {
        assert(b.len() != 0);
        if a[0] < b[0] {
            assert(!lex_le(b, a));
        } else if a[0] > b[0] {
            assert(!lex_le(a, b));
        } else {
            assert(a[0] == b[0]);
            assert(lex_le(a.drop_first(), b.drop_first()) == lex_le(a, b));
            assert(lex_le(b.drop_first(), a.drop_first()) == lex_le(b, a));
            lemma_lex_le_antisym(a.drop_first(), b.drop_first());
            assert forall|i: int| 0 <= i < a.len() implies a[i] == b[i] by {
                if i > 0 {
                    assert(a[i] == a.drop_first()[i - 1]);
                    assert(b[i] == b.drop_first()[i - 1]);
                }
            }
            assert(a =~= b);
        }
    }
}

pub proof fn lemma_lex_le_trans(a: Seq<char>, b: Seq<char>, c: Seq<char>)
    requires
        lex_le(a, b),
        lex_le(b, c),
    ensures
        lex_le(a, c),
    decreases a.len(),
{
    if a.len() == 0 {
        assert(lex_le(a, c));
    } else {
        assert(b.len() != 0);
        if lex_le(a, c) {
        } else {
            assert(c.len() != 0);
            let x = a[0];
            let y = b[0];
            let z = c[0];
            assert(x < y || (x == y && lex_le(a.drop_first(), b.drop_first())));
            assert(y < z || (y == z && lex_le(b.drop_first(), c.drop_first())));
            if x == y && y == z {
                lemma_lex_le_trans(a.drop_first(), b.drop_first(), c.drop_first());
                assert(lex_le(a, c) == lex_le(a.drop_first(), c.drop_first()));
            } else {
                assert(x < z);
                assert(lex_le(a, c));
            }
        }
    }
}

/// The identity order is total.
pub proof fn lemma_kind_le_total(a: KindView, b: KindView)
    ensures
        kind_le(a, b) || kind_le(b, a),
{
    match (a, b) {
        (KindView::Special(x), KindView::Special(y)) => lemma_lex_le_total(x, y),
        _ => {},
    }
}

/// The identity order is antisymmetric: mutually comparable identities are
/// structurally equal.
pub proof fn lemma_kind_le_antisym(a: KindView, b: KindView)
    requires
        kind_le(a, b),
        kind_le(b, a),
    ensures
        a == b,
{
    match (a, b) {
        (KindView::Special(x), KindView::Special(y)) => {
            lemma_lex_le_antisym(x, y);
            assert(a =~= b);
        },
        _ => {},
    }
}

/// The identity order is transitive.
pub proof fn lemma_kind_le_trans(a: KindView, b: KindView, c: KindView)
    ensures
        kind_le(a, b) && kind_le(b, c) ==> kind_le(a, c),
{
    match (a, b) {
        (KindView::Special(x), KindView::Special(y)) => {
            match c {
                KindView::Special(z) => {
                    if lex_le(x, y) && lex_le(y, z) {
                        lemma_lex_le_trans(x, y, z);
                    }
                },
                _ => {},
            }
        },
        _ => {},
    }
}

/// Character-wise string equality.
pub fn str_eq(a: &str, b: &str) -> (r: bool)
    ensures
        r == (a@ == b@),
{
    let la: usize = a.unicode_len();
    let lb: usize = b.unicode_len();
    if la != lb {
        return false;
    }
    let mut i: usize = 0;
    while i < la
        invariant
            i <= la,
            la == a@.len(),
            la == b@.len(),
            forall|j: int| 0 <= j < i ==> a@[j] == b@[j],
        decreases la - i,
    {
        let ca = a.get_char(i);
        let cb = b.get_char(i);
        if ca != cb {
            return false;
        }
        i += 1;
    }
    proof {
        assert(a@ =~= b@);
    }
    true
}

/// Lexicographic comparison of two strings, character by character.
pub fn lex_le_exec(a: &str, b: &str) -> (r: bool)
    ensures
        r == lex_le(a@, b@),
{
    let la: usize = a.unicode_len();
    let lb: usize = b.unicode_len();
    let mut i: usize = 0;
    proof {
        assert(a@.skip(0) =~= a@);
        assert(b@.skip(0) =~= b@);
    }
    while i < la && i < lb
        invariant
            i <= la,
            i <= lb,
            la == a@.len(),
            lb == b@.len(),
            lex_le(a@, b@) == lex_le(a@.skip(i as int), b@.skip(i as int)),
        decreases la - i,
    {
        let ca = a.get_char(i);
        let cb = b.get_char(i);
        if ca < cb {
            return true;
        }
        if cb < ca {
            return false;
        }
        proof {
            assert(a@.skip(i as int).drop_first() =~= a@.skip(i + 1));
            assert(b@.skip(i as int).drop_first() =~= b@.skip(i + 1));
        }
        i += 1;
    }
    i >= la
}

impl EpisodeKind {
    /// Comparison under the centralized total order `kind_le`.
    pub fn le(&self, other: &EpisodeKind) -> (r: bool)
        ensures
            r == kind_le(self@, other@),
    {
        match (self, other) {
            (EpisodeKind::Special(x), EpisodeKind::Special(y)) => {
                lex_le_exec(x.as_str(), y.as_str())
            },
            (EpisodeKind::Special(_), EpisodeKind::Numbered(_)) => true,
            (EpisodeKind::Numbered(_), EpisodeKind::Special(_)) => false,
            (EpisodeKind::Numbered(x), EpisodeKind::Numbered(y)) => x.le(y),
        }
    }

    /// Structural equality of identities: numbered coordinates must agree, or
    /// special labels must agree; a numbered identity never equals a special.
    pub fn eq_kind(&self, other: &EpisodeKind) -> (r: bool)
        ensures
            r == (self@ == other@),
    {
        match (self, other) {
            (EpisodeKind::Numbered(x), EpisodeKind::Numbered(y)) => {
                let r = x.ep == y.ep && x.s == y.s;
                proof {
                    if r {
                        assert(self@ =~= other@);
                    }
                }
                r
            },
            (EpisodeKind::Special(x), EpisodeKind::Special(y)) => {
                let r = str_eq(x.as_str(), y.as_str());
                proof {
                    if x@ == y@ {
                        assert(self@ =~= other@);
                    }
                }
                r
            },
            _ => false,
        }
    }
}

/// A classified file: the filename it came from and its identity.
#[derive(Clone, Debug)]
pub struct Episode {
    pub dir_name: String,
    pub ep: EpisodeKind,
}

impl Default for Episode {
    /// An empty filename with the default identity.
    fn default() -> (r: Self)
        ensures
            r.dir_name@ == Seq::<char>::empty(),
            r.ep@ == KindView::Numbered(EpisodeNumbered { ep: 1u32, s: 1u32 }),
    {
        Episode { dir_name: String::new(), ep: EpisodeKind::Numbered(EpisodeNumbered { ep: 1, s: 1 }) }
    }
}

impl Episode {
    /// Identity-based equality: the originating filename is not compared.
    pub fn same_identity(&self, other: &Episode) -> (r: bool)
        ensures
            r == (self.ep@ == other.ep@),
    {
        self.ep.eq_kind(&other.ep)
    }

    /// Identity-based comparison under the centralized total order.
    pub fn le(&self, other: &Episode) -> (r: bool)
        ensures
            r == kind_le(self.ep@, other.ep@),
    {
        self.ep.le(&other.ep)
    }
}

} // verus!
