//! The credited artists of an album card: each copy's comma-joined credit
//! list read name by name, and the names of every copy of a card merged in
//! a stable sort by artist key with repeats of one artist left out.
use vstd::prelude::*;
use crate::album_header::{joined, texts_of};
use crate::local_names::{name_key, spec_name_key};
use crate::text::{chars_equal, chars_lt, chars_of, lex_lt, string_from_chars, trim, trimmed_chars};

verus! {

/// The comma-separated pieces of `s`, left to right (`str::split(',')`).
pub open spec fn comma_pieces(s: Seq<char>) -> Seq<Seq<char>>
    decreases s.len(),
{
    if s.len() == 0 {
        seq![Seq::empty()]
    } else {
        let p = comma_pieces(s.drop_last());
        if s.last() == ',' {
            p.push(Seq::empty())
        } else {
            p.drop_last().push(p.last().push(s.last()))
        }
    }
}

/// The pieces trimmed, empty ones left out.
pub open spec fn names_of(pieces: Seq<Seq<char>>) -> Seq<Seq<char>>
    decreases pieces.len(),
{
    if pieces.len() == 0 {
        Seq::empty()
    } else if trim(pieces.last()).len() > 0 {
        names_of(pieces.drop_last()).push(trim(pieces.last()))
    } else {
        names_of(pieces.drop_last())
    }
}

/// The names a comma-joined credit list holds.
pub open spec fn credit_names(s: Seq<char>) -> Seq<Seq<char>> {
    names_of(comma_pieces(s))
}

proof fn lemma_comma_pieces_nonempty(s: Seq<char>)
    ensures
        comma_pieces(s).len() >= 1,
    decreases s.len(),
{
    if s.len() > 0 {
        lemma_comma_pieces_nonempty(s.drop_last());
    }
}

/// The names of a comma-joined credit list, each trimmed, empty ones left
/// out.
pub fn credit_names_of(s: &str) -> (r: Vec<String>)
    ensures
        texts_of(r@) == credit_names(s@),
{
    let cs = chars_of(s);
    let mut done: Vec<String> = Vec::new();
    let mut cur: Vec<char> = Vec::new();
    let mut i: usize = 0;
    proof {
        assert(cs@.take(0) =~= Seq::<char>::empty());
        assert(comma_pieces(Seq::<char>::empty()).drop_last() =~= Seq::<Seq<char>>::empty());
    }
    while i < cs.len()
        invariant
            0 <= i <= cs@.len(),
            cs@ == s@,
            comma_pieces(cs@.take(i as int)).len() >= 1,
            cur@ == comma_pieces(cs@.take(i as int)).last(),
            texts_of(done@) == names_of(comma_pieces(cs@.take(i as int)).drop_last()),
        decreases cs@.len() - i,
    {
        let c = cs[i];
        let ghost p = comma_pieces(cs@.take(i as int));
        proof {
            assert(cs@.take(i + 1).drop_last() =~= cs@.take(i as int));
            assert(cs@.take(i + 1).last() == c);
        }
        if c == ',' {
            let piece = string_from_chars(&cur);
            let t = trimmed_chars(piece.as_str());
            proof {
                assert(p.drop_last().push(p.last()) =~= p);
                assert(p.push(Seq::<char>::empty()).drop_last() =~= p);
            }
            if t.len() > 0 {
                let ghost before = texts_of(done@);
                done.push(string_from_chars(&t));
                proof {
                    assert(texts_of(done@) =~= before.push(t@));
                }
            }
            cur = Vec::new();
        } else {
            cur.push(c);
            proof {
                assert(p.drop_last().push(p.last().push(c)).drop_last() =~= p.drop_last());
            }
        }
        i = i + 1;
    }
    proof {
        assert(cs@.take(i as int) =~= s@);
    }
    let ghost p = comma_pieces(s@);
    let piece = string_from_chars(&cur);
    let t = trimmed_chars(piece.as_str());
    proof {
        assert(p.drop_last().push(p.last()) =~= p);
    }
    if t.len() > 0 {
        let ghost before = texts_of(done@);
        done.push(string_from_chars(&t));
        proof {
            assert(texts_of(done@) =~= before.push(t@));
        }
    }
    done
}

/// `x` inserted from the back after every name whose artist key is not
/// above its own (the stable `sort_by_key` on the artist key).
pub open spec fn insert_credit(s: Seq<Seq<char>>, x: Seq<char>) -> Seq<Seq<char>>
    decreases s.len(),
{
    if s.len() == 0 {
        seq![x]
    } else if lex_lt(spec_name_key(x), spec_name_key(s.last())) {
        insert_credit(s.drop_last(), x).push(s.last())
    } else {
        s.push(x)
    }
}

pub open spec fn sorted_credits(s: Seq<Seq<char>>) -> Seq<Seq<char>>
    decreases s.len(),
{
    if s.len() == 0 {
        s
    } else {
        insert_credit(sorted_credits(s.drop_last()), s.last())
    }
}

/// A name whose artist key repeats that of the name kept before it, left
/// out (`dedup_by` on equal artist keys).
pub open spec fn dedup_credits(s: Seq<Seq<char>>) -> Seq<Seq<char>>
    decreases s.len(),
{
    if s.len() == 0 {
        s
    } else {
        let d = dedup_credits(s.drop_last());
        if d.len() > 0 && spec_name_key(d.last()) == spec_name_key(s.last()) {
            d
        } else {
            d.push(s.last())
        }
    }
}

proof fn lemma_insert_credit_at(s: Seq<Seq<char>>, x: Seq<char>, j: int)
    requires
        0 <= j <= s.len(),
        forall|k: int| j <= k < s.len() ==> lex_lt(spec_name_key(x), spec_name_key(#[trigger] s[k])),
        j == 0 || !lex_lt(spec_name_key(x), spec_name_key(s[j - 1])),
    ensures
        insert_credit(s, x) == s.take(j).push(x) + s.skip(j),
    decreases s.len(),
{
    if s.len() == 0 {
        assert(s.take(j).push(x) + s.skip(j) =~= seq![x]);
    } else if j == s.len() {
        assert(s.take(j) =~= s);
        assert(s.take(j).push(x) + s.skip(j) =~= s.push(x));
    } else {
        let t = s.drop_last();
        assert(lex_lt(spec_name_key(x), spec_name_key(s[s.len() - 1])));
        assert forall|k: int| j <= k < t.len() implies lex_lt(spec_name_key(x), spec_name_key(#[trigger] t[k])) by {
            assert(t[k] == s[k]);
        }
        if j > 0 {
            assert(t[j - 1] == s[j - 1]);
        }
        lemma_insert_credit_at(t, x, j);
        assert((t.take(j).push(x) + t.skip(j)).push(s.last()) =~= s.take(j).push(x) + s.skip(j));
    }
}

/// Credited names merged: a stable sort by artist key, with a name whose
/// key repeats the one kept before it left out.
pub fn merge_credits(all: &Vec<String>) -> (r: Vec<String>)
    ensures
        texts_of(r@) == dedup_credits(sorted_credits(texts_of(all@))),
{
    let ghost view = texts_of(all@);
    let mut sorted: Vec<String> = Vec::new();
    let mut keys: Vec<Vec<char>> = Vec::new();
    let mut n: usize = 0;
    while n < all.len()
        invariant
            0 <= n <= all@.len(),
            view == texts_of(all@),
            texts_of(sorted@) == sorted_credits(view.take(n as int)),
            keys@.len() == sorted@.len(),
            forall|q: int| 0 <= q < keys@.len() ==> (#[trigger] keys@[q])@ == spec_name_key(sorted@[q]@),
        decreases all@.len() - n,
    {
        let x = all[n].clone();
        let xk = chars_of(name_key(x.as_str()).as_str());
        let ghost sv = texts_of(sorted@);
        let mut j: usize = sorted.len();
        loop
            invariant
                0 <= j <= sorted@.len(),
                keys@.len() == sorted@.len(),
                sv == texts_of(sorted@),
                forall|q: int| 0 <= q < keys@.len() ==> (#[trigger] keys@[q])@ == spec_name_key(sorted@[q]@),
                xk@ == spec_name_key(x@),
                forall|q: int| j <= q < sv.len() ==> lex_lt(spec_name_key(x@), spec_name_key(#[trigger] sv[q])),
            ensures
                0 <= j <= sorted@.len(),
                forall|q: int| j <= q < sv.len() ==> lex_lt(spec_name_key(x@), spec_name_key(#[trigger] sv[q])),
                j == 0 || !lex_lt(spec_name_key(x@), spec_name_key(sv[j - 1])),
            decreases j,
        {
            if j == 0 {
                break;
            }
            assert(keys@[j - 1]@ == spec_name_key(sv[j - 1]));
            if !chars_lt(&xk, &keys[j - 1]) {
                break;
            }
            j = j - 1;
        }
        proof {
            lemma_insert_credit_at(sv, x@, j as int);
            assert(view.take(n + 1).drop_last() =~= view.take(n as int));
            assert(view.take(n + 1).last() == x@);
        }
        let ghost ks = keys@;
        let ghost ss = sorted@;
        sorted.insert(j, x);
        keys.insert(j, xk);
        proof {
            assert(texts_of(sorted@) =~= sv.take(j as int).push(x@) + sv.skip(j as int));
            assert forall|q: int| 0 <= q < keys@.len() implies (#[trigger] keys@[q])@ == spec_name_key(sorted@[q]@) by {
                if q < j {
                    assert(keys@[q] == ks[q] && sorted@[q] == ss[q]);
                } else if q > j {
                    assert(keys@[q] == ks[q - 1] && sorted@[q] == ss[q - 1]);
                }
            }
        }
        n = n + 1;
    }
    proof {
        assert(view.take(n as int) =~= view);
    }
    let ghost sv = texts_of(sorted@);
    let mut out: Vec<String> = Vec::new();
    let mut last_key: Vec<char> = Vec::new();
    let mut m: usize = 0;
    while m < sorted.len()
        invariant
            0 <= m <= sorted@.len(),
            sv == texts_of(sorted@),
            keys@.len() == sorted@.len(),
            forall|q: int| 0 <= q < keys@.len() ==> (#[trigger] keys@[q])@ == spec_name_key(sorted@[q]@),
            texts_of(out@) == dedup_credits(sv.take(m as int)),
            out@.len() > 0 ==> last_key@ == spec_name_key(out@.last()@),
        decreases sorted@.len() - m,
    {
        let x = sorted[m].clone();
        proof {
            assert(sv.take(m + 1).drop_last() =~= sv.take(m as int));
            assert(sv.take(m + 1).last() == x@);
            assert(keys@[m as int]@ == spec_name_key(x@));
            if out@.len() > 0 {
                assert(texts_of(out@).last() == out@.last()@);
            }
        }
        let repeat = out.len() > 0 && chars_equal(&last_key, &keys[m]);
        if !repeat {
            let ghost before = texts_of(out@);
            let k = keys[m].clone();
            out.push(x);
            last_key = k;
            proof {
                assert(texts_of(out@) =~= before.push(sv[m as int]));
            }
        }
        m = m + 1;
    }
    proof {
        assert(sv.take(m as int) =~= sv);
    }
    out
}

/// The names joined by commas.
pub fn join_with_commas(parts: &Vec<String>) -> (r: String)
    ensures
        r@ == joined(texts_of(parts@), ","@),
{
    let ghost ps = texts_of(parts@);
    let mut out: Vec<char> = Vec::new();
    let mut k: usize = 0;
    while k < parts.len()
        invariant
            0 <= k <= parts@.len(),
            ps == texts_of(parts@),
            out@ == joined(ps.take(k as int), ","@),
        decreases parts@.len() - k,
    {
        let ghost before = out@;
        if k > 0 {
            out.push(',');
        }
        let part = chars_of(parts[k].as_str());
        let mut m: usize = 0;
        let ghost mid = out@;
        while m < part.len()
            invariant
                0 <= m <= part@.len(),
                out@ == mid + part@.take(m as int),
            decreases part@.len() - m,
        {
            out.push(part[m]);
            proof {
                assert(out@ =~= mid + part@.take(m + 1));
            }
            m = m + 1;
        }
        proof {
            assert(part@.take(m as int) =~= part@);
            assert(ps.take(k + 1).drop_last() =~= ps.take(k as int));
            assert(ps.take(k + 1).last() == part@);
            reveal_strlit(",");
            if k == 0 {
                assert(ps.take(1).len() == 1);
                assert(out@ =~= ps.take(1)[0]);
            } else {
                assert(mid =~= before + ","@);
                assert(out@ =~= joined(ps.take(k as int), ","@) + ","@ + part@);
            }
        }
        k = k + 1;
    }
    proof {
        assert(ps.take(k as int) =~= ps);
    }
    string_from_chars(&out)
}

} // verus!
