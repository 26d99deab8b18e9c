//! Reading a label body back: a tokenizer for `key="value"` lists, and the
//! proof that it recovers the pairs that destination labels were built from.
use vstd::prelude::*;
use crate::labels::{dst_label, dst_labels_text};
use crate::text::{escape, escape_char};

verus! {

/// The key before the first `=`, and what follows that `=`.
pub open spec fn split_key(s: Seq<char>) -> Option<(Seq<char>, Seq<char>)>
    decreases s.len(),
{
    if s.len() == 0 {
        None
    } else if s[0] == '=' {
        Some((Seq::empty(), s.drop_first()))
    } else {
        match split_key(s.drop_first()) {
            Some((k, r)) => Some((seq![s[0]] + k, r)),
            None => None,
        }
    }
}

/// An escaped value up to its closing quote, unescaped, and what follows
/// the quote.
pub open spec fn unescape_value(s: Seq<char>) -> Option<(Seq<char>, Seq<char>)>
    decreases s.len(),
{
    if s.len() == 0 {
        None
    } else if s[0] == '"' {
        Some((Seq::empty(), s.drop_first()))
    } else if s[0] == '\\' {
        if s.len() < 2 {
            None
        } else {
            let c = if s[1] == 'n' {
                '\n'
            } else {
                s[1]
            };
            match unescape_value(s.subrange(2, s.len() as int)) {
                Some((v, r)) => Some((seq![c] + v, r)),
                None => None,
            }
        }
    } else {
        match unescape_value(s.drop_first()) {
            Some((v, r)) => Some((seq![s[0]] + v, r)),
            None => None,
        }
    }
}

/// The pairs of a label body, reading at most `fuel` of them.
pub open spec fn parse_labels(s: Seq<char>, fuel: nat) -> Option<Seq<(Seq<char>, Seq<char>)>>
    decreases fuel,
{
    if s.len() == 0 {
        Some(Seq::empty())
    } else if fuel == 0 {
        None
    } else {
        match split_key(s) {
            None => None,
            Some((k, r1)) => if r1.len() > 0 && r1[0] == '"' {
                match unescape_value(r1.drop_first()) {
                    None => None,
                    Some((v, r2)) => if r2.len() == 0 {
                        Some(seq![(k, v)])
                    } else if r2[0] == ',' {
                        match parse_labels(r2.drop_first(), (fuel - 1) as nat) {
                            Some(t) => Some(seq![(k, v)] + t),
                            None => None,
                        }
                    } else {
                        None
                    },
                }
            } else {
                None
            },
        }
    }
}

/// The pairs of a label body such as `a="1",b="x\"y"`, or `None` where it
/// is not one.
pub open spec fn parse_label_body(s: Seq<char>) -> Option<Seq<(Seq<char>, Seq<char>)>> {
    parse_labels(s, s.len())
}

/// The pairs that destination labels stand for: each key prefixed with
/// `dst_`.
pub open spec fn dst_pairs(pairs: Seq<(String, String)>) -> Seq<(Seq<char>, Seq<char>)> {
    pairs.map_values(|p: (String, String)| (seq!['d', 's', 't', '_'] + p.0@, p.1@))
}

proof fn lemma_escape_cons(c: char, t: Seq<char>)
    ensures
        escape(seq![c] + t) == escape_char(c) + escape(t),
    decreases t.len(),
{
    let s = seq![c] + t;
    if t.len() == 0 {
        assert(s.drop_last() =~= Seq::<char>::empty());
        assert(s =~= seq![c]);
        assert(escape(Seq::<char>::empty()) == Seq::<char>::empty());
        assert(escape(s) =~= escape_char(c));
        assert(escape_char(c) + escape(t) =~= escape_char(c));
    } else {
        lemma_escape_cons(c, t.drop_last());
        assert(s.drop_last() =~= seq![c] + t.drop_last());
        assert(s.last() == t.last());
        assert(escape(s) =~= escape_char(c) + escape(t));
    }
}

proof fn lemma_unescape_escape(v: Seq<char>, rest: Seq<char>)
    ensures
        unescape_value(escape(v) + seq!['"'] + rest) == Some((v, rest)),
    decreases v.len(),
{
    let s = escape(v) + seq!['"'] + rest;
    if v.len() == 0 {
        assert(escape(v) == Seq::<char>::empty());
        assert(s =~= seq!['"'] + rest);
        assert(s.drop_first() =~= rest);
    } else {
        let c = v[0];
        let t = v.drop_first();
        assert(v =~= seq![c] + t);
        lemma_escape_cons(c, t);
        lemma_unescape_escape(t, rest);
        let inner = escape(t) + seq!['"'] + rest;
        assert(s =~= escape_char(c) + inner);
        if c == '\\' || c == '"' || c == '\n' {
            assert(s.subrange(2, s.len() as int) =~= inner);
            assert(s[0] == '\\');
        } else {
            assert(s.drop_first() =~= inner);
            assert(s[0] == c);
        }
        assert(seq![c] + t =~= v);
    }
}

proof fn lemma_split_key(k: Seq<char>, rest: Seq<char>)
    requires
        !k.contains('='),
    ensures
        split_key(k + seq!['='] + rest) == Some((k, rest)),
    decreases k.len(),
{
    let s = k + seq!['='] + rest;
    if k.len() == 0 {
        assert(s =~= seq!['='] + rest);
        assert(s.drop_first() =~= rest);
    } else {
        let t = k.drop_first();
        assert(!t.contains('=')) by {
            if t.contains('=') {
                let j = choose|j: int| 0 <= j < t.len() && t[j] == '=';
                assert(k[j + 1] == '=');
            }
        }
        assert(k[0] != '=') by {
            if k[0] == '=' {
                assert(k.contains('='));
            }
        }
        lemma_split_key(t, rest);
        assert(s.drop_first() =~= t + seq!['='] + rest);
        assert(seq![k[0]] + t =~= k);
    }
}

proof fn lemma_dst_text_front(p: (String, String), t: Seq<(String, String)>)
    ensures
        dst_labels_text(seq![p] + t) == dst_label(p.0@, p.1@) + (if t.len() == 0 {
            Seq::empty()
        } else {
            seq![','] + dst_labels_text(t)
        }),
    decreases t.len(),
{
    let s = seq![p] + t;
    if t.len() == 0 {
        assert(s.len() == 1);
        assert(s[0] == p);
        assert(dst_label(p.0@, p.1@) + Seq::<char>::empty() =~= dst_label(p.0@, p.1@));
    } else {
        let init = t.drop_last();
        lemma_dst_text_front(p, init);
        assert(s.drop_last() =~= seq![p] + init);
        assert(s.last() == t.last());
        if init.len() == 0 {
            assert(t.len() == 1);
            assert(t[0] == t.last());
            assert(dst_labels_text(s) =~= dst_label(p.0@, p.1@) + (seq![','] + dst_labels_text(t)));
        } else {
            assert(dst_labels_text(s) =~= dst_label(p.0@, p.1@) + (seq![','] + dst_labels_text(t)));
        }
    }
}

proof fn lemma_parse_dst(pairs: Seq<(String, String)>, fuel: nat)
    requires
        fuel >= pairs.len(),
        forall|i: int| 0 <= i < pairs.len() ==> !(#[trigger] pairs[i].0@).contains('='),
    ensures
        parse_labels(dst_labels_text(pairs), fuel) == Some(dst_pairs(pairs)),
        dst_labels_text(pairs).len() >= pairs.len(),
    decreases pairs.len(),
{
    if pairs.len() == 0 {
        assert(dst_pairs(pairs) =~= Seq::<(Seq<char>, Seq<char>)>::empty());
    } else {
        let p = pairs[0];
        let t = pairs.drop_first();
        assert(pairs =~= seq![p] + t);
        assert forall|i: int| 0 <= i < t.len() implies !(#[trigger] t[i].0@).contains('=') by {
            assert(t[i] == pairs[i + 1]);
        }
        lemma_parse_dst(t, (fuel - 1) as nat);
        lemma_dst_text_front(p, t);
        let rest_t: Seq<char> = if t.len() == 0 {
            Seq::empty()
        } else {
            seq![','] + dst_labels_text(t)
        };
        let key = seq!['d', 's', 't', '_'] + p.0@;
        assert(!key.contains('=')) by {
            if key.contains('=') {
                let j = choose|j: int| 0 <= j < key.len() && key[j] == '=';
                if j >= 4 {
                    assert(p.0@[j - 4] == '=');
                    assert(p.0@.contains('='));
                }
            }
        }
        let after_key = seq!['"'] + escape(p.1@) + seq!['"'] + rest_t;
        let s = dst_labels_text(pairs);
        assert(s =~= key + seq!['='] + after_key);
        lemma_split_key(key, after_key);
        assert(after_key.drop_first() =~= escape(p.1@) + seq!['"'] + rest_t);
        lemma_unescape_escape(p.1@, rest_t);
        let d = dst_pairs(pairs);
        assert(d[0] == (key, p.1@));
        if t.len() == 0 {
            assert(d =~= seq![(key, p.1@)]);
        } else {
            assert(rest_t.drop_first() =~= dst_labels_text(t));
            assert(d =~= seq![(key, p.1@)] + dst_pairs(t));
        }
    }
}

/// Destination labels read back: tokenizing the text that `DstLabels::new`
/// formats gives the pairs it was built from, each key prefixed with `dst_`,
/// where no key holds `=`.
pub proof fn lemma_dst_labels_round_trip(pairs: Seq<(String, String)>)
    requires
        forall|i: int| 0 <= i < pairs.len() ==> !(#[trigger] pairs[i].0@).contains('='),
    ensures
        parse_label_body(dst_labels_text(pairs)) == Some(dst_pairs(pairs)),
{
    lemma_parse_dst(pairs, pairs.len());
    lemma_parse_dst(pairs, dst_labels_text(pairs).len());
}

} // verus!
