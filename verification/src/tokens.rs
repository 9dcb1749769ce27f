//! Lexing and segmentation: raw text to marker tokens, marker tokens to
//! separator-free groups.

use vstd::prelude::*;

verus! {

broadcast use vstd::std_specs::vec::group_vec_axioms, vstd::seq::group_seq_axioms;

/// The three marker kinds recognized in source text. Every other character
/// is ignored.
#[derive(Clone, Copy, PartialEq, Eq, Structural, Debug)]
pub enum Token {
    UpperW,
    LowerW,
    LowerV,
}

/// The marker that a character stands for, if any.
pub open spec fn token_of(c: char) -> Option<Token> {
    if c == 'w' {
        Some(Token::LowerW)
    } else if c == 'W' {
        Some(Token::UpperW)
    } else if c == 'v' {
        Some(Token::LowerV)
    } else {
        None
    }
}

/// The marker sequence of `s`, where `found` records whether an argument
/// marker has been seen already. Until the first `w`, every character is
/// discarded; from that `w` on, every marker is kept.
pub open spec fn spec_lex(s: Seq<char>, found: bool) -> Seq<Token>
    decreases s.len(),
{
    if s.len() == 0 {
        Seq::empty()
    } else {
        let rest = s.drop_first();
        match token_of(s[0]) {
            None => spec_lex(rest, found),
            Some(t) => {
                let now = found || t == Token::LowerW;
                if now {
                    seq![t] + spec_lex(rest, now)
                } else {
                    spec_lex(rest, false)
                }
            },
        }
    }
}

/// The marker sequence of a whole text: nothing before the first argument
/// marker is kept.
pub open spec fn spec_tokenize(s: Seq<char>) -> Seq<Token> {
    spec_lex(s, false)
}

/// Converts source text into its marker sequence. Characters other than the
/// three markers are dropped, as is everything before the first `w`.
pub fn tokenize(s: &str) -> (tokens: Vec<Token>)
    ensures
        tokens@ == spec_tokenize(s@),
{
    let mut tokens: Vec<Token> = Vec::new();
    let mut found_w = false;
    let n = s.unicode_len();
    let mut i: usize = 0;
    proof {
        assert(s@.skip(0) =~= s@);
        assert(Seq::<Token>::empty() + spec_lex(s@, false) =~= spec_lex(s@, false));
    }
    while i < n
        invariant
            n == s@.len(),
            i <= n,
            tokens@ + spec_lex(s@.skip(i as int), found_w) == spec_tokenize(s@),
        decreases n - i,
    {
        proof {
            assert(s@.skip(i as int)[0] == s@[i as int]);
            assert(s@.skip(i as int).drop_first() =~= s@.skip(i + 1));
        }
        let c = s.get_char(i);
        let t_opt: Option<Token> = if c == 'w' {
            Some(Token::LowerW)
        } else if c == 'W' {
            Some(Token::UpperW)
        } else if c == 'v' {
            Some(Token::LowerV)
        } else {
            None
        };
        match t_opt {
            None => {},
            Some(t) => {
                found_w = found_w || t == Token::LowerW;
                if found_w {
                    tokens.push(t);
                }
            },
        }
        i = i + 1;
    }
    proof {
        assert(s@.skip(n as int) =~= Seq::<char>::empty());
    }
    tokens
}

/// Leading-comment discard: a prefix without any argument marker contributes
/// nothing to the marker sequence, whatever other characters it holds.
pub proof fn lemma_leading_comment_discard(p: Seq<char>, t: Seq<char>)
    requires
        forall|i: int| 0 <= i < p.len() ==> p[i] != 'w',
    ensures
        spec_tokenize(p + t) == spec_tokenize(t),
    decreases p.len(),
{
    if p.len() == 0 {
        assert(p + t =~= t);
    } else {
        assert((p + t)[0] == p[0]);
        assert((p + t).drop_first() =~= p.drop_first() + t);
        lemma_leading_comment_discard(p.drop_first(), t);
    }
}

/// Splitting a token sequence on separators, with `cur` the group built so
/// far. A separator closes the current group, which is dropped if empty;
/// separators never enter a group.
pub open spec fn split_acc(ts: Seq<Token>, cur: Seq<Token>) -> Seq<Seq<Token>>
    decreases ts.len(),
{
    if ts.len() == 0 {
        if cur.len() > 0 {
            seq![cur]
        } else {
            Seq::empty()
        }
    } else if ts[0] == Token::LowerV {
        let closed: Seq<Seq<Token>> = if cur.len() > 0 {
            seq![cur]
        } else {
            Seq::empty()
        };
        closed + split_acc(ts.drop_first(), Seq::empty())
    } else {
        split_acc(ts.drop_first(), cur.push(ts[0]))
    }
}

/// The groups of a token sequence, split on the separator marker.
pub open spec fn spec_split(ts: Seq<Token>) -> Seq<Seq<Token>> {
    split_acc(ts, Seq::empty())
}

/// Splits a marker sequence into groups on the separator marker. Empty
/// groups are discarded; the separator itself is never part of a group.
pub fn split(tokens: Vec<Token>) -> (groups: Vec<Vec<Token>>)
    ensures
        groups@.len() == spec_split(tokens@).len(),
        forall|j: int| 0 <= j < groups@.len() ==> groups@[j]@ == spec_split(tokens@)[j],
{
    let ghost all: Seq<Seq<Token>> = spec_split(tokens@);
    let mut groups: Vec<Vec<Token>> = Vec::new();
    let mut current: Vec<Token> = Vec::new();
    let n = tokens.len();
    let mut i: usize = 0;
    proof {
        assert(tokens@.skip(0) =~= tokens@);
        assert(Seq::<Vec<Token>>::empty().map_values(|g: Vec<Token>| g@) + split_acc(
            tokens@,
            Seq::empty(),
        ) =~= split_acc(tokens@, Seq::empty()));
    }
    while i < n
        invariant
            n == tokens@.len(),
            i <= n,
            all == spec_split(tokens@),
            groups@.len() <= all.len(),
            forall|j: int| 0 <= j < groups@.len() ==> groups@[j]@ == all[j],
            all == groups@.map_values(|g: Vec<Token>| g@) + split_acc(
                tokens@.skip(i as int),
                current@,
            ),
        decreases n - i,
    {
        proof {
            assert(tokens@.skip(i as int)[0] == tokens@[i as int]);
            assert(tokens@.skip(i as int).drop_first() =~= tokens@.skip(i + 1));
        }
        let t = tokens[i];
        if t == Token::LowerV {
            if current.len() > 0 {
                let ghost before = groups@;
                groups.push(current);
                proof {
                    assert(groups@.map_values(|g: Vec<Token>| g@) =~= before.map_values(
                        |g: Vec<Token>| g@,
                    ).push(current@));
                    assert(before.map_values(|g: Vec<Token>| g@).push(current@) + split_acc(
                        tokens@.skip(i + 1),
                        Seq::empty(),
                    ) =~= before.map_values(|g: Vec<Token>| g@) + (seq![current@] + split_acc(
                        tokens@.skip(i + 1),
                        Seq::empty(),
                    )));
                }
                current = Vec::new();
            } else {
                proof {
                    assert(Seq::<Seq<Token>>::empty() + split_acc(
                        tokens@.skip(i + 1),
                        Seq::empty(),
                    ) =~= split_acc(tokens@.skip(i + 1), Seq::empty()));
                }
                current = Vec::new();
            }
        } else {
            current.push(t);
        }
        i = i + 1;
    }
    proof {
        assert(tokens@.skip(n as int) =~= Seq::<Token>::empty());
    }
    if current.len() > 0 {
        let ghost before = groups@;
        groups.push(current);
        proof {
            assert(groups@.map_values(|g: Vec<Token>| g@) =~= before.map_values(
                |g: Vec<Token>| g@,
            ).push(current@));
            assert(before.map_values(|g: Vec<Token>| g@).push(current@) =~= before.map_values(
                |g: Vec<Token>| g@,
            ) + seq![current@]);
        }
    }
    proof {
        lemma_map_values_index(groups@, all);
    }
    groups
}

/// Each group that a map over views reconstructs is itself: relates the
/// element views of a vector of groups to the mapped sequence.
proof fn lemma_map_values_index(groups: Seq<Vec<Token>>, all: Seq<Seq<Token>>)
    requires
        all == groups.map_values(|g: Vec<Token>| g@),
    ensures
        groups.len() == all.len(),
        forall|j: int| 0 <= j < groups.len() ==> groups[j]@ == all[j],
{
}

/// Segmentation never yields an empty group, and no group holds a separator.
pub proof fn lemma_split_groups_wellformed(ts: Seq<Token>)
    ensures
        forall|j: int| 0 <= j < spec_split(ts).len() ==> #[trigger] spec_split(ts)[j].len() > 0,
        forall|j: int, k: int|
            0 <= j < spec_split(ts).len() && 0 <= k < spec_split(ts)[j].len()
                ==> #[trigger] spec_split(ts)[j][k] != Token::LowerV,
{
    lemma_split_acc_wellformed(ts, Seq::empty());
}

proof fn lemma_split_acc_wellformed(ts: Seq<Token>, cur: Seq<Token>)
    requires
        forall|k: int| 0 <= k < cur.len() ==> cur[k] != Token::LowerV,
    ensures
        forall|j: int|
            0 <= j < split_acc(ts, cur).len() ==> #[trigger] split_acc(ts, cur)[j].len() > 0,
        forall|j: int, k: int|
            0 <= j < split_acc(ts, cur).len() && 0 <= k < split_acc(ts, cur)[j].len()
                ==> #[trigger] split_acc(ts, cur)[j][k] != Token::LowerV,
    decreases ts.len(),
{
    if ts.len() == 0 {
    } else if ts[0] == Token::LowerV {
        lemma_split_acc_wellformed(ts.drop_first(), Seq::empty());
    } else {
        lemma_split_acc_wellformed(ts.drop_first(), cur.push(ts[0]));
    }
}

/// The token sequence with every separator removed.
pub open spec fn drop_separators(ts: Seq<Token>) -> Seq<Token>
    decreases ts.len(),
{
    if ts.len() == 0 {
        Seq::empty()
    } else if ts[0] == Token::LowerV {
        drop_separators(ts.drop_first())
    } else {
        seq![ts[0]] + drop_separators(ts.drop_first())
    }
}

/// The concatenation of a sequence of groups, in order.
pub open spec fn concat_groups(gs: Seq<Seq<Token>>) -> Seq<Token>
    decreases gs.len(),
{
    if gs.len() == 0 {
        Seq::empty()
    } else {
        gs[0] + concat_groups(gs.drop_first())
    }
}

/// Segmentation loses nothing but separators: concatenating the groups in
/// order reconstructs the marker sequence with its separators removed.
pub proof fn lemma_split_concat(ts: Seq<Token>)
    ensures
        concat_groups(spec_split(ts)) == drop_separators(ts),
{
    lemma_split_acc_concat(ts, Seq::empty());
    assert(Seq::<Token>::empty() + drop_separators(ts) =~= drop_separators(ts));
}

proof fn lemma_split_acc_concat(ts: Seq<Token>, cur: Seq<Token>)
    ensures
        concat_groups(split_acc(ts, cur)) == cur + drop_separators(ts),
    decreases ts.len(),
{
    if ts.len() == 0 {
        if cur.len() > 0 {
            let s1 = seq![cur];
            assert(s1.len() == 1);
            assert(s1[0] == cur);
            assert(s1.drop_first() =~= Seq::<Seq<Token>>::empty());
            assert(concat_groups(s1.drop_first()) == Seq::<Token>::empty());
            assert(concat_groups(s1) == cur + Seq::<Token>::empty());
            assert(cur + Seq::<Token>::empty() =~= cur);
            assert(cur + drop_separators(ts) =~= cur);
        } else {
            assert(cur + drop_separators(ts) =~= Seq::<Token>::empty());
        }
    } else if ts[0] == Token::LowerV {
        lemma_split_acc_concat(ts.drop_first(), Seq::empty());
        let rec = split_acc(ts.drop_first(), Seq::empty());
        if cur.len() > 0 {
            assert((seq![cur] + rec).drop_first() =~= rec);
            assert(cur + (Seq::<Token>::empty() + drop_separators(ts.drop_first())) =~= cur
                + drop_separators(ts));
        } else {
            assert(Seq::<Seq<Token>>::empty() + rec =~= rec);
            assert(Seq::<Token>::empty() + drop_separators(ts.drop_first()) =~= cur
                + drop_separators(ts));
        }
    } else {
        lemma_split_acc_concat(ts.drop_first(), cur.push(ts[0]));
        assert(cur.push(ts[0]) + drop_separators(ts.drop_first()) =~= cur + (seq![ts[0]]
            + drop_separators(ts.drop_first())));
    }
}

} // verus!
