//! Text for and from the interactive picker.
//!
//! The picker itself is an external program fed a newline-delimited list;
//! this module renders episode identities into lines (`S01E02`-style for
//! numbered episodes, the bare label for specials), assembles the whole
//! menu, and maps the chosen line back to an identity. A rendered numbered
//! line parses back to the same identity through the classifier for the
//! usual one- and two-digit coordinates.

use vstd::prelude::*;

verus! {

use vstd::string::StringExecFns;

use crate::classify::{classify, classify_spec};
use crate::episode::{str_eq, EpisodeKind, EpisodeNumbered, KindView};
use crate::text::push_char;

/// The decimal digit characters of `n`, most significant first.
pub open spec fn dec_digits(n: nat) -> Seq<char>
    decreases n,
{
    if n < 10 {
        seq![digit_char(n)]
    } else {
        dec_digits(n / 10).push(digit_char(n % 10))
    }
}

/// The character of a single decimal digit.
pub open spec fn digit_char(d: nat) -> char {
    if d == 0 {
        '0'
    } else if d == 1 {
        '1'
    } else if d == 2 {
        '2'
    } else if d == 3 {
        '3'
    } else if d == 4 {
        '4'
    } else if d == 5 {
        '5'
    } else if d == 6 {
        '6'
    } else if d == 7 {
        '7'
    } else if d == 8 {
        '8'
    } else {
        '9'
    }
}

/// A coordinate rendered with at least two digits, as the classifier's
/// season capture expects.
pub open spec fn pad2(n: nat) -> Seq<char> {
    if n < 10 {
        seq!['0'] + dec_digits(n)
    } else {
        dec_digits(n)
    }
}

/// One menu line for an identity: `S<season>E<episode>` or the special's
/// label.
pub open spec fn display_kind(k: KindView) -> Seq<char> {
    match k {
        KindView::Numbered(n) => seq!['S'] + pad2(n.s as nat) + seq!['E'] + pad2(n.ep as nat),
        KindView::Special(label) => label,
    }
}

fn digit_char_exec(d: u32) -> (c: char)
    requires
        d < 10,
    ensures
        c == digit_char(d as nat),
{
    if d == 0 {
        '0'
    } else if d == 1 {
        '1'
    } else if d == 2 {
        '2'
    } else if d == 3 {
        '3'
    } else if d == 4 {
        '4'
    } else if d == 5 {
        '5'
    } else if d == 6 {
        '6'
    } else if d == 7 {
        '7'
    } else if d == 8 {
        '8'
    } else {
        '9'
    }
}

/// Appends the decimal digits of `n`.
fn push_dec(out: &mut String, n: u32)
    ensures
        final(out)@ == old(out)@ + dec_digits(n as nat),
    decreases n,
{
    if n < 10 {
        let c = digit_char_exec(n);
        push_char(out, c);
        proof {
            assert(old(out)@.push(digit_char(n as nat)) =~= old(out)@ + dec_digits(n as nat));
        }
    } else {
        push_dec(out, n / 10);
        let c = digit_char_exec(n % 10);
        push_char(out, c);
        proof {
            assert((old(out)@ + dec_digits((n / 10) as nat)).push(digit_char((n % 10) as nat))
                =~= old(out)@ + dec_digits(n as nat));
        }
    }
}

/// Appends a coordinate with at least two digits.
fn push_pad2(out: &mut String, n: u32)
    ensures
        final(out)@ == old(out)@ + pad2(n as nat),
{
    if n < 10 {
        push_char(out, '0');
        push_dec(out, n);
        proof {
            assert(old(out)@.push('0') + dec_digits(n as nat) =~= old(out)@ + pad2(n as nat));
        }
    } else {
        push_dec(out, n);
    }
}

impl EpisodeKind {
    /// The identity's menu line.
    pub fn display_string(&self) -> (r: String)
        ensures
            r@ == display_kind(self@),
    {
        match self {
            EpisodeKind::Numbered(n) => {
                let mut out = String::new();
                push_char(&mut out, 'S');
                proof {
                    assert(out@ =~= seq!['S']);
                }
                push_pad2(&mut out, n.s);
                push_char(&mut out, 'E');
                push_pad2(&mut out, n.ep);
                proof {
                    assert(out@ =~= display_kind(self@));
                }
                out
            },
            EpisodeKind::Special(label) => label.clone(),
        }
    }
}

/// The menu lines of an identity listing, each line ending in a newline.
pub open spec fn lines_of(eps: Seq<KindView>) -> Seq<char>
    decreases eps.len(),
{
    if eps.len() == 0 {
        Seq::empty()
    } else {
        display_kind(eps[0]) + seq!['\n'] + lines_of(eps.drop_first())
    }
}

/// The whole menu: the current episode under its header, the next episode
/// under its header when one is known, then every listed identity.
pub open spec fn menu_spec(
    eps: Seq<KindView>,
    current: KindView,
    next: Option<KindView>,
) -> Seq<char> {
    "Current Episode:\n"@ + display_kind(current) + seq!['\n'] + (match next {
        Some(k) => "Next Episode:\n"@ + display_kind(k) + seq!['\n'],
        None => Seq::empty(),
    }) + lines_of(eps)
}

proof fn lemma_lines_push(eps: Seq<KindView>, x: KindView)
    ensures
        lines_of(eps.push(x)) == lines_of(eps) + display_kind(x) + seq!['\n'],
    decreases eps.len(),
{
    let p = eps.push(x);
    if eps.len() == 0 {
        assert(p[0] == x);
        assert(p.drop_first() =~= Seq::<KindView>::empty());
        assert(lines_of(p.drop_first()) =~= Seq::<char>::empty());
        assert(lines_of(p) =~= lines_of(eps) + display_kind(x) + seq!['\n']);
    } else {
        assert(p.drop_first() =~= eps.drop_first().push(x));
        lemma_lines_push(eps.drop_first(), x);
        assert(lines_of(p) == display_kind(eps[0]) + seq!['\n'] + (lines_of(eps.drop_first())
            + display_kind(x) + seq!['\n']));
        assert(display_kind(eps[0]) + seq!['\n'] + (lines_of(eps.drop_first()) + display_kind(x)
            + seq!['\n']) =~= (display_kind(eps[0]) + seq!['\n'] + lines_of(eps.drop_first()))
            + display_kind(x) + seq!['\n']);
    }
}

/// Builds the picker menu into `buf`.
pub fn fill_string(
    buf: &mut String,
    episodes: &Vec<EpisodeKind>,
    current: &EpisodeKind,
    next: Option<&EpisodeKind>,
)
    ensures
        final(buf)@ == old(buf)@ + menu_spec(
            episodes@.map_values(|e: EpisodeKind| e@),
            current@,
            match next {
                Some(k) => Some(k@),
                None => None,
            },
        ),
{
    buf.append("Current Episode:\n");
    let cur_line = current.display_string();
    buf.append(cur_line.as_str());
    push_char(buf, '\n');
    match next {
        Some(k) => {
            buf.append("Next Episode:\n");
            let next_line = k.display_string();
            buf.append(next_line.as_str());
            push_char(buf, '\n');
        },
        None => {},
    }
    let ghost header = buf@;
    let ghost views = episodes@.map_values(|e: EpisodeKind| e@);
    let mut i: usize = 0;
    proof {
        assert(views.take(0) =~= Seq::<KindView>::empty());
        assert(lines_of(views.take(0)) =~= Seq::<char>::empty());
        assert(buf@ =~= header + lines_of(views.take(0)));
    }
    while i < episodes.len()
        invariant
            i <= views.len(),
            views.len() == episodes@.len(),
            views == episodes@.map_values(|e: EpisodeKind| e@),
            buf@ == header + lines_of(views.take(i as int)),
        decreases views.len() - i,
    {
        proof {
            assert(views.take(i + 1) =~= views.take(i as int).push(views[i as int]));
            lemma_lines_push(views.take(i as int), views[i as int]);
        }
        let line = episodes[i].display_string();
        buf.append(line.as_str());
        push_char(buf, '\n');
        proof {
            assert((header + lines_of(views.take(i as int)) + display_kind(views[i as int])).push(
                '\n',
            ) =~= header + lines_of(views.take(i + 1)));
        }
        i += 1;
    }
    proof {
        assert(views.take(i as int) =~= views);
        assert(header + lines_of(views) =~= old(buf)@ + menu_spec(
            views,
            current@,
            match next {
                Some(k) => Some(k@),
                None => None,
            },
        ));
    }
}

/// Maps a chosen picker line back to an identity: the two headers select
/// the current and next episode; anything else is classified as a
/// filename. Selecting the next-episode header when none is known yields
/// nothing.
pub fn parse_episode(s: &str, current: &EpisodeKind, next: &Option<EpisodeKind>) -> (r: Option<
    EpisodeKind,
>)
    ensures
        s@ == "Current Episode:"@ ==> (r matches Some(k) && k@ == current@),
        s@ != "Current Episode:"@ && s@ == "Next Episode:"@ ==> (match next {
            Some(n) => r matches Some(k) && k@ == n@,
            None => r is None,
        }),
        s@ != "Current Episode:"@ && s@ != "Next Episode:"@ ==> (r matches Some(k) && k@
            == classify_spec(s@)),
{
    if str_eq(s, "Current Episode:") {
        Some(current.duplicate())
    } else if str_eq(s, "Next Episode:") {
        match next {
            Some(k) => Some(k.duplicate()),
            None => None,
        }
    } else {
        Some(classify(s))
    }
}

} // verus!
