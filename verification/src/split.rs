use vstd::prelude::*;

verus! {

/// Splitting a character sequence at every occurrence of `c`; always
/// yields at least one (possibly empty) piece, like `str::split`.
pub open spec fn split_char(s: Seq<char>, c: char) -> Seq<Seq<char>>
    decreases s.len(),
{
    if s.len() == 0 {
        seq![Seq::<char>::empty()]
    } else if s[0] == c {
        seq![Seq::<char>::empty()] + split_char(s.drop_first(), c)
    } else {
        let rest = split_char(s.drop_first(), c);
        seq![seq![s[0]] + rest[0]] + rest.drop_first()
    }
}

/// The index of the first occurrence of `c` in `s`, or `s.len()` when
/// there is none.
pub open spec fn find_char(s: Seq<char>, c: char) -> int
    decreases s.len(),
{
    if s.len() == 0 {
        0
    } else if s[0] == c {
        0
    } else {
        1 + find_char(s.drop_first(), c)
    }
}

/// A scan that saw no `c` before `k`, and `c` at `k` if `k` is inside
/// `s`, has found `find_char`.
pub proof fn lemma_find_char_at(s: Seq<char>, c: char, k: int)
    requires
        0 <= k <= s.len(),
        forall|m: int| 0 <= m < k ==> s[m] != c,
        k < s.len() ==> s[k] == c,
    ensures
        find_char(s, c) == k,
    decreases s.len(),
{
    if s.len() == 0 {
    } else if s[0] == c {
    } else {
        assert(forall|m: int| 0 <= m < s.drop_first().len() ==> s.drop_first()[m] == s[m + 1]);
        lemma_find_char_at(s.drop_first(), c, k - 1);
    }
}

pub proof fn lemma_split_len(s: Seq<char>, c: char)
    ensures
        split_char(s, c).len() >= 1,
    decreases s.len(),
{
    if s.len() == 0 {
    } else if s[0] == c {
        lemma_split_len(s.drop_first(), c)
    } else {
        lemma_split_len(s.drop_first(), c)
    }
}

/// Peeling the first piece off a split: if no separator occurs before
/// `k`, and one occurs at `k` unless `k` is the end, then the split is
/// the piece up to `k` followed by the split of what is after `k`.
pub proof fn lemma_split_head(t: Seq<char>, c: char, k: int)
    requires
        0 <= k <= t.len(),
        forall|m: int| 0 <= m < k ==> t[m] != c,
        k < t.len() ==> t[k] == c,
    ensures
        k == t.len() ==> split_char(t, c) == seq![t],
        k < t.len() ==> split_char(t, c) == seq![t.take(k)] + split_char(t.skip(k + 1), c),
    decreases t.len(),
{
    if k == 0 {
        if t.len() == 0 {
            assert(t =~= Seq::<char>::empty());
        } else {
            assert(t[0] == c);
            assert(t.take(0) =~= Seq::<char>::empty());
            assert(t.skip(1) =~= t.drop_first());
            assert(split_char(t, c) == seq![t.take(0)] + split_char(t.skip(1), c));
        }
    } else {
        let u = t.drop_first();
        assert(forall|m: int| 0 <= m < u.len() ==> u[m] == t[m + 1]);
        assert(t[0] != c);
        lemma_split_head(u, c, k - 1);
        lemma_split_len(u, c);
        let rest = split_char(u, c);
        if k == t.len() {
            assert(rest == seq![u]);
            assert(seq![t[0]] + rest[0] =~= t);
            assert(split_char(t, c) =~= seq![t]);
        } else {
            assert(rest == seq![u.take(k - 1)] + split_char(u.skip(k), c));
            assert(rest[0] == u.take(k - 1));
            assert(seq![t[0]] + u.take(k - 1) =~= t.take(k));
            assert(u.skip(k) =~= t.skip(k + 1));
            assert(rest.drop_first() =~= split_char(t.skip(k + 1), c));
            assert(split_char(t, c) =~= seq![t.take(k)] + split_char(t.skip(k + 1), c));
        }
    }
}

/// The views of a list of strings.
pub open spec fn views_of(v: Seq<String>) -> Seq<Seq<char>> {
    Seq::new(v.len(), |i: int| v[i]@)
}

/// Splits `s` at every occurrence of `c`, like `str::split`.
pub fn split_str(s: &str, c: char) -> (r: Vec<String>)
    ensures
        views_of(r@) == split_char(s@, c),
{
    let n = s.unicode_len();
    let mut r: Vec<String> = Vec::new();
    let mut start: usize = 0;
    proof {
        assert(s@.skip(0) =~= s@);
        assert(views_of(r@) =~= Seq::<Seq<char>>::empty());
    }
    loop
        invariant_except_break
            start <= n,
            n == s@.len(),
            split_char(s@, c) == views_of(r@) + split_char(s@.skip(start as int), c),
        ensures
            views_of(r@) == split_char(s@, c),
        decreases n - start,
    {
        let mut j = start;
        while j < n && s.get_char(j) != c
            invariant
                start <= j <= n,
                n == s@.len(),
                forall|m: int| start <= m < j ==> s@[m] != c,
            decreases n - j,
        {
            j += 1;
        }
        let seg = s.substring_char(start, j).to_owned();
        let ghost tail = s@.skip(start as int);
        proof {
            assert(forall|m: int| 0 <= m < tail.len() ==> tail[m] == s@[m + start]);
            assert(j < n ==> s@[j as int] == c);
            lemma_split_head(tail, c, j - start);
            assert(seg@ == s@.subrange(start as int, j as int));
        }
        if j == n {
            r.push(seg);
            proof {
                assert(seg@ =~= tail);
                assert(views_of(r@) =~= views_of(r@.drop_last()) + seq![seg@]);
                assert(views_of(r@) =~= split_char(s@, c));
            }
            break;
        }
        r.push(seg);
        proof {
            assert(seg@ =~= tail.take(j - start));
            assert(tail.skip(j - start + 1) =~= s@.skip(j + 1));
            assert(views_of(r@) =~= views_of(r@.drop_last()) + seq![seg@]);
            assert(views_of(r@.drop_last()) + (seq![seg@] + split_char(s@.skip(j + 1), c))
                =~= (views_of(r@.drop_last()) + seq![seg@]) + split_char(s@.skip(j + 1), c));
        }
        start = j + 1;
    }
    r
}

} // verus!
