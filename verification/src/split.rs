//! Splitting a payload on the space byte into its positional fields, the way
//! the record grammar reads it: every space separates, so doubled or
//! trailing spaces yield empty fields.

use crate::SPACE;
use vstd::prelude::*;

verus! {

/// The fields of a payload: the maximal runs between space bytes, in order.
/// An empty payload has one empty field; `n` spaces make `n + 1` fields.
pub open spec fn split_fields(s: Seq<u8>) -> Seq<Seq<u8>>
    decreases s.len(),
{
    if s.len() == 0 {
        seq![Seq::<u8>::empty()]
    } else if s[0] == SPACE {
        seq![Seq::<u8>::empty()] + split_fields(s.skip(1))
    } else {
        let rest = split_fields(s.skip(1));
        seq![seq![s[0]] + rest[0]] + rest.skip(1)
    }
}

pub proof fn lemma_split_fields_len(s: Seq<u8>)
    ensures
        split_fields(s).len() >= 1,
    decreases s.len(),
{
    if s.len() == 0 {
    } else {
        lemma_split_fields_len(s.skip(1));
    }
}

/// Appending one byte either extends the last field or opens a new one.
proof fn lemma_split_fields_push(s: Seq<u8>, c: u8)
    ensures
        c == SPACE ==> split_fields(s.push(c)) == split_fields(s).push(Seq::<u8>::empty()),
        c != SPACE ==> split_fields(s.push(c)) == split_fields(s).update(
            split_fields(s).len() - 1,
            split_fields(s).last().push(c),
        ),
    decreases s.len(),
{
    lemma_split_fields_len(s);
    let p = s.push(c);
    assert(p.len() == s.len() + 1);
    if s.len() == 0 {
        assert(p[0] == c);
        assert(p.skip(1) =~= Seq::<u8>::empty());
        assert(split_fields(Seq::<u8>::empty()) == seq![Seq::<u8>::empty()]);
        if c == SPACE {
            assert(split_fields(p) == seq![Seq::<u8>::empty()] + split_fields(p.skip(1)));
            assert(split_fields(p) =~~= split_fields(s).push(Seq::<u8>::empty()));
        } else {
            let rest = split_fields(p.skip(1));
            assert(split_fields(p) == seq![seq![p[0]] + rest[0]] + rest.skip(1));
            assert(seq![p[0]] + rest[0] =~= seq![c]);
            assert(split_fields(p) =~~= split_fields(s).update(
                split_fields(s).len() - 1,
                split_fields(s).last().push(c),
            ));
        }
    } else {
        assert(p[0] == s[0]);
        assert(p.skip(1) =~= s.skip(1).push(c));
        lemma_split_fields_push(s.skip(1), c);
        lemma_split_fields_len(s.skip(1));
        let rest = split_fields(s.skip(1));
        let prest = split_fields(p.skip(1));
        if s[0] == SPACE {
            assert(split_fields(p) == seq![Seq::<u8>::empty()] + prest);
            assert(split_fields(s) == seq![Seq::<u8>::empty()] + rest);
            if c == SPACE {
                assert(prest == rest.push(Seq::<u8>::empty()));
                assert(split_fields(p) =~~= split_fields(s).push(Seq::<u8>::empty()));
            } else {
                assert(prest == rest.update(rest.len() - 1, rest.last().push(c)));
                assert(split_fields(p) =~~= split_fields(s).update(
                    split_fields(s).len() - 1,
                    split_fields(s).last().push(c),
                ));
            }
        } else {
            assert(split_fields(p) == seq![seq![p[0]] + prest[0]] + prest.skip(1));
            assert(split_fields(s) == seq![seq![s[0]] + rest[0]] + rest.skip(1));
            if c == SPACE {
                assert(prest == rest.push(Seq::<u8>::empty()));
                assert(prest[0] == rest[0]);
                assert(prest.skip(1) =~~= rest.skip(1).push(Seq::<u8>::empty()));
                assert(split_fields(p) =~~= split_fields(s).push(Seq::<u8>::empty()));
            } else {
                assert(prest == rest.update(rest.len() - 1, rest.last().push(c)));
                if rest.len() == 1 {
                    assert(prest[0] == rest[0].push(c));
                    assert(split_fields(p) =~~= split_fields(s).update(
                        split_fields(s).len() - 1,
                        split_fields(s).last().push(c),
                    ));
                } else {
                    assert(prest[0] == rest[0]);
                    assert(prest.skip(1) =~~= rest.skip(1).update(
                        rest.skip(1).len() - 1,
                        rest.skip(1).last().push(c),
                    ));
                    assert(split_fields(p) =~~= split_fields(s).update(
                        split_fields(s).len() - 1,
                        split_fields(s).last().push(c),
                    ));
                }
            }
        }
    }
}

/// A payload without spaces is one single field.
pub proof fn lemma_split_fields_whole(s: Seq<u8>)
    requires
        forall|i: int| 0 <= i < s.len() ==> s[i] != SPACE,
    ensures
        split_fields(s) == seq![s],
    decreases s.len(),
{
    if s.len() == 0 {
        assert(split_fields(s) =~~= seq![s]);
    } else {
        assert forall|i: int| 0 <= i < s.skip(1).len() implies s.skip(1)[i] != SPACE by {
            assert(s.skip(1)[i] == s[i + 1]);
        }
        lemma_split_fields_whole(s.skip(1));
        assert(seq![s[0]] + s.skip(1) =~= s);
        assert(split_fields(s) =~~= seq![s]);
    }
}

/// A space after a space-free prefix closes that prefix as the first field.
pub proof fn lemma_split_fields_concat(a: Seq<u8>, rest: Seq<u8>)
    requires
        forall|i: int| 0 <= i < a.len() ==> a[i] != SPACE,
    ensures
        split_fields(a + seq![SPACE] + rest) == seq![a] + split_fields(rest),
    decreases a.len(),
{
    if a.len() == 0 {
        assert(a + seq![SPACE] + rest =~= seq![SPACE] + rest);
        assert((seq![SPACE] + rest)[0] == SPACE);
        assert((seq![SPACE] + rest).skip(1) =~= rest);
        assert(split_fields(a + seq![SPACE] + rest) =~~= seq![a] + split_fields(rest));
    } else {
        let s = a + seq![SPACE] + rest;
        assert(s[0] == a[0]);
        assert(s[0] != SPACE);
        assert forall|i: int| 0 <= i < a.skip(1).len() implies a.skip(1)[i] != SPACE by {
            assert(a.skip(1)[i] == a[i + 1]);
        }
        lemma_split_fields_concat(a.skip(1), rest);
        assert(s.skip(1) =~= a.skip(1) + seq![SPACE] + rest);
        let inner = split_fields(s.skip(1));
        assert(inner == seq![a.skip(1)] + split_fields(rest));
        lemma_split_fields_len(rest);
        assert(inner[0] == a.skip(1));
        assert(seq![s[0]] + inner[0] =~= a);
        assert(inner.skip(1) =~= split_fields(rest));
        assert(split_fields(s) =~~= seq![a] + split_fields(rest));
    }
}

/// Split a payload into its fields at runtime.
pub fn split_payload(src: &[u8]) -> (chunks: Vec<Vec<u8>>)
    ensures
        chunks@.len() == split_fields(src@).len(),
        forall|k: int| 0 <= k < chunks@.len() ==> chunks@[k]@ == split_fields(src@)[k],
{
    let mut done: Vec<Vec<u8>> = Vec::new();
    let mut cur: Vec<u8> = Vec::new();
    let n = src.len();
    let mut i: usize = 0;
    while i < n
        invariant
            i <= n,
            n == src@.len(),
            done@.len() + 1 == split_fields(src@.take(i as int)).len(),
            forall|k: int|
                0 <= k < done@.len() ==> done@[k]@ == split_fields(src@.take(i as int))[k],
            cur@ == split_fields(src@.take(i as int)).last(),
        decreases n - i,
    {
        proof {
            assert(src@.take(i as int + 1) =~= src@.take(i as int).push(src@[i as int]));
            lemma_split_fields_push(src@.take(i as int), src@[i as int]);
            lemma_split_fields_len(src@.take(i as int));
        }
        let b = src[i];
        if b == 32 {
            done.push(cur);
            cur = Vec::new();
        } else {
            cur.push(b);
        }
        i += 1;
    }
    proof {
        assert(src@.take(n as int) =~= src@);
    }
    done.push(cur);
    done
}

} // verus!
