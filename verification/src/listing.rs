//! Reading the bucket names out of what `rclone lsd` prints.
//!
//! Each line of `rclone lsd` ends with the bucket's name, as in
//! `          -1 2024-01-01 00:00:00        -1 bucket-name`; the name is the last
//! whitespace-separated word of the line, and blank lines name no bucket.
use vstd::prelude::*;
use crate::text::{is_ws, is_whitespace, chars_of, string_from_range};

verus! {

/// Where the line that starts at `i` ends: at the first `'\n'` from `i` on, or at the end of `s`.
pub open spec fn line_end(s: Seq<char>, i: int) -> int
    decreases s.len() - i,
{
    if i >= s.len() {
        s.len() as int
    } else if s[i] == '\n' {
        i
    } else {
        line_end(s, i + 1)
    }
}

/// The length of `l` without its trailing white space.
pub open spec fn trimmed_len(l: Seq<char>) -> int
    decreases l.len(),
{
    if l.len() > 0 && is_ws(l.last()) {
        trimmed_len(l.drop_last())
    } else {
        l.len() as int
    }
}

/// Where the last word of `t` starts, `t` having no trailing white space.
pub open spec fn word_start(t: Seq<char>) -> int
    decreases t.len(),
{
    if t.len() == 0 || is_ws(t.last()) {
        t.len() as int
    } else {
        word_start(t.drop_last())
    }
}

/// The last white-space-separated word of `l`, if `l` is not blank.
pub open spec fn last_word(l: Seq<char>) -> Option<Seq<char>> {
    let t = l.take(trimmed_len(l));
    if t.len() == 0 {
        None
    } else {
        Some(t.subrange(word_start(t), t.len() as int))
    }
}

/// The character sequences of the strings `v`.
pub open spec fn string_views(v: Seq<String>) -> Seq<Seq<char>> {
    v.map_values(|x: String| x@)
}

/// The last word of each line of `s` from position `i` on, blank lines skipped.
pub open spec fn names_from(s: Seq<char>, i: int) -> Seq<Seq<char>>
    decreases s.len() + 1 - i,
{
    if i < 0 || i > s.len() {
        Seq::empty()
    } else {
        let e = line_end(s, i);
        let here = match last_word(s.subrange(i, e)) {
            Some(w) => seq![w],
            None => Seq::empty(),
        };
        if e >= s.len() {
            here
        } else {
            proof {
                lemma_line_end(s, i);
            }
            here + names_from(s, e + 1)
        }
    }
}

/// The bucket names that `rclone lsd` printed as `s`: the last word of each line, in
/// order, blank lines skipped.
pub open spec fn listed_bucket_names(s: Seq<char>) -> Seq<Seq<char>> {
    names_from(s, 0)
}

/// A line ends where it starts or later, and only at a newline or the end.
pub proof fn lemma_line_end(s: Seq<char>, i: int)
    requires
        0 <= i <= s.len(),
    ensures
        i <= line_end(s, i) <= s.len(),
        line_end(s, i) < s.len() ==> s[line_end(s, i)] == '\n',
        forall|j: int| i <= j < line_end(s, i) ==> s[j] != '\n',
    decreases s.len() - i,
{
    if i < s.len() && s[i] != '\n' {
        lemma_line_end(s, i + 1);
    }
}

/// The trimmed length is at most the length, and what it cuts off is white space.
pub proof fn lemma_trimmed_len(l: Seq<char>)
    ensures
        0 <= trimmed_len(l) <= l.len(),
        trimmed_len(l) > 0 ==> !is_ws(l[trimmed_len(l) - 1]),
    decreases l.len(),
{
    if l.len() > 0 && is_ws(l.last()) {
        lemma_trimmed_len(l.drop_last());
        if trimmed_len(l) > 0 {
            assert(l.drop_last()[trimmed_len(l) - 1] == l[trimmed_len(l) - 1]);
        }
    }
}

/// The last word starts within `t`, holds no white space, and is preceded by white space
/// or nothing.
pub proof fn lemma_word_start(t: Seq<char>)
    ensures
        0 <= word_start(t) <= t.len(),
        forall|j: int| word_start(t) <= j < t.len() ==> !is_ws(#[trigger] t[j]),
        word_start(t) > 0 ==> is_ws(t[word_start(t) - 1]),
    decreases t.len(),
{
    if !(t.len() == 0 || is_ws(t.last())) {
        lemma_word_start(t.drop_last());
        assert forall|j: int| word_start(t) <= j < t.len() implies !is_ws(#[trigger] t[j]) by {
            if j < t.len() - 1 {
                assert(t.drop_last()[j] == t[j]);
            }
        }
        if word_start(t) > 0 {
            assert(t.drop_last()[word_start(t) - 1] == t[word_start(t) - 1]);
        }
    }
}

/// Every name read from a listing is a non-empty word without white space.
pub proof fn lemma_listed_names_are_words(s: Seq<char>, i: int)
    ensures
        forall|k: int| 0 <= k < names_from(s, i).len() ==> {
            let w = #[trigger] names_from(s, i)[k];
            &&& w.len() > 0
            &&& forall|j: int| 0 <= j < w.len() ==> !is_ws(#[trigger] w[j])
        },
    decreases s.len() + 1 - i,
{
    if 0 <= i <= s.len() {
        let e = line_end(s, i);
        lemma_line_end(s, i);
        let l = s.subrange(i, e);
        let t = l.take(trimmed_len(l));
        lemma_trimmed_len(l);
        lemma_word_start(t);
        if t.len() > 0 {
            let w = t.subrange(word_start(t), t.len() as int);
            assert(t[t.len() - 1] == l[trimmed_len(l) - 1]);
            assert forall|j: int| 0 <= j < w.len() implies !is_ws(#[trigger] w[j]) by {
                assert(w[j] == t[word_start(t) + j]);
            }
        }
        if e < s.len() {
            lemma_listed_names_are_words(s, e + 1);
            let here = match last_word(l) {
                Some(w) => seq![w],
                None => Seq::<Seq<char>>::empty(),
            };
            let rest = names_from(s, e + 1);
            assert(names_from(s, i) == here + rest);
            assert forall|k: int| 0 <= k < names_from(s, i).len() implies {
                let w = #[trigger] names_from(s, i)[k];
                &&& w.len() > 0
                &&& forall|j: int| 0 <= j < w.len() ==> !is_ws(#[trigger] w[j])
            } by {
                if k >= here.len() {
                    assert(names_from(s, i)[k] == rest[k - here.len()]);
                }
            }
        }
    }
}

/// What trimming cuts off the end of `l` is white space.
proof fn lemma_trimmed_tail(l: Seq<char>)
    ensures
        forall|j: int| trimmed_len(l) <= j < l.len() ==> is_ws(#[trigger] l[j]),
    decreases l.len(),
{
    if l.len() > 0 && is_ws(l.last()) {
        lemma_trimmed_tail(l.drop_last());
        lemma_trimmed_len(l.drop_last());
        assert forall|j: int| trimmed_len(l) <= j < l.len() implies is_ws(#[trigger] l[j]) by {
            if j < l.len() - 1 {
                assert(l.drop_last()[j] == l[j]);
            }
        }
    }
}

/// A line names no bucket exactly when it is blank; otherwise it names its last word:
/// the longest run of non-white-space characters that only white space follows.
pub proof fn lemma_last_word(l: Seq<char>)
    ensures
        last_word(l) is None <==> (forall|j: int| 0 <= j < l.len() ==> is_ws(#[trigger] l[j])),
        last_word(l) is Some ==> exists|b: int, e: int|
            #![trigger l.subrange(b, e)]
            {
                &&& 0 <= b < e <= l.len()
                &&& last_word(l) == Some(l.subrange(b, e))
                &&& (forall|j: int| b <= j < e ==> !is_ws(#[trigger] l[j]))
                &&& (forall|j: int| e <= j < l.len() ==> is_ws(#[trigger] l[j]))
                &&& (b == 0 || is_ws(l[b - 1]))
            },
{
    let n = trimmed_len(l);
    lemma_trimmed_len(l);
    lemma_trimmed_tail(l);
    let t = l.take(n);
    if n == 0 {
        assert(t.len() == 0);
    } else {
        assert(!is_ws(l[n - 1]));
        assert(t.last() == l[n - 1]);
        lemma_word_start(t);
        lemma_word_start(t.drop_last());
        let b = word_start(t);
        assert(b == word_start(t.drop_last()));
        assert(b < n);
        assert(t.subrange(b, n) =~= l.subrange(b, n));
        assert forall|j: int| b <= j < n implies !is_ws(#[trigger] l[j]) by {
            assert(t[j] == l[j]);
        }
        if b > 0 {
            assert(t[b - 1] == l[b - 1]);
        }
        assert(last_word(l) == Some(l.subrange(b, n)));
    }
}

/// Past its first `'\n'`-free stretch `a`, a text's lines are those of what follows.
proof fn lemma_line_end_shift(a: Seq<char>, rest: Seq<char>, i: int)
    requires
        0 <= i <= rest.len(),
    ensures
        line_end(a + rest, a.len() + i) == a.len() + line_end(rest, i),
    decreases rest.len() - i,
{
    let s = a + rest;
    if i < rest.len() {
        assert(s[a.len() + i] == rest[i]);
        if rest[i] != '\n' {
            lemma_line_end_shift(a, rest, i + 1);
        }
    }
}

/// The names read from `a + rest` after `a` are the names read from `rest`.
proof fn lemma_names_shift(a: Seq<char>, rest: Seq<char>, i: int)
    requires
        0 <= i <= rest.len(),
    ensures
        names_from(a + rest, a.len() + i) == names_from(rest, i),
    decreases rest.len() + 1 - i,
{
    let s = a + rest;
    let n = a.len() as int;
    lemma_line_end_shift(a, rest, i);
    lemma_line_end(rest, i);
    let e = line_end(rest, i);
    assert(s.subrange(n + i, n + e) =~= rest.subrange(i, e));
    if e < rest.len() {
        lemma_names_shift(a, rest, e + 1);
    }
}

/// A line without `'\n'` ends at the end of the line.
proof fn lemma_line_end_no_newline(s: Seq<char>, l: Seq<char>, j: int)
    requires
        0 <= j <= l.len() <= s.len(),
        l == s.take(l.len() as int),
        !l.contains('\n'),
        l.len() == s.len() || s[l.len() as int] == '\n',
    ensures
        line_end(s, j) == l.len(),
    decreases l.len() - j,
{
    if j < l.len() {
        assert(s[j] == l[j]);
        assert(s[j] != '\n');
        lemma_line_end_no_newline(s, l, j + 1);
    }
}

/// The listing is read line by line: a line without `'\n'` gives its last word, if it is
/// not blank, and nothing else; and a line followed by `'\n'` gives the same before the
/// names of the rest.
pub proof fn lemma_listing_by_lines(l: Seq<char>, rest: Seq<char>)
    requires
        !l.contains('\n'),
    ensures
        listed_bucket_names(l) == (match last_word(l) {
            Some(w) => seq![w],
            None => Seq::<Seq<char>>::empty(),
        }),
        listed_bucket_names(l + seq!['\n'] + rest) == listed_bucket_names(l) + listed_bucket_names(rest),
{
    assert(l.take(l.len() as int) =~= l);
    lemma_line_end_no_newline(l, l, 0);
    assert(l.subrange(0, l.len() as int) =~= l);
    let a = l + seq!['\n'];
    let s = a + rest;
    assert(s.take(l.len() as int) =~= l);
    assert(s[l.len() as int] == '\n');
    lemma_line_end_no_newline(s, l, 0);
    assert(s.subrange(0, l.len() as int) =~= l);
    lemma_names_shift(a, rest, 0);
    assert(l + seq!['\n'] + rest == s);
}

/// The last word of the line `cs[from..to]`, as the range where it stands.
fn last_word_range(cs: &Vec<char>, from: usize, to: usize) -> (r: Option<(usize, usize)>)
    requires
        from <= to <= cs@.len(),
    ensures
        match r {
            Some((b, e)) => from <= b <= e <= to && last_word(cs@.subrange(from as int, to as int)) == Some(
                cs@.subrange(b as int, e as int),
            ),
            None => last_word(cs@.subrange(from as int, to as int)) is None,
        },
{
    let ghost l = cs@.subrange(from as int, to as int);
    let mut e = to;
    while e > from && is_whitespace(cs[e - 1])
        invariant
            from <= e <= to <= cs@.len(),
            l == cs@.subrange(from as int, to as int),
            trimmed_len(l) == trimmed_len(cs@.subrange(from as int, e as int)),
        decreases e - from,
    {
        proof {
            let m = cs@.subrange(from as int, e as int);
            assert(m.drop_last() =~= cs@.subrange(from as int, e - 1));
        }
        e = e - 1;
    }
    proof {
        let m = cs@.subrange(from as int, e as int);
        assert(trimmed_len(m) == m.len());
        assert(l.take(trimmed_len(l)) =~= m);
    }
    if e == from {
        return None;
    }
    let ghost t = cs@.subrange(from as int, e as int);
    let mut b = e;
    while b > from && !is_whitespace(cs[b - 1])
        invariant
            from <= b <= e <= to <= cs@.len(),
            t == cs@.subrange(from as int, e as int),
            word_start(t) == word_start(cs@.subrange(from as int, b as int)),
        decreases b - from,
    {
        proof {
            let m = cs@.subrange(from as int, b as int);
            assert(m.drop_last() =~= cs@.subrange(from as int, b - 1));
        }
        b = b - 1;
    }
    proof {
        let m = cs@.subrange(from as int, b as int);
        assert(word_start(m) == m.len());
        assert(t.subrange(word_start(t), t.len() as int) =~= cs@.subrange(b as int, e as int));
    }
    Some((b, e))
}

/// The bucket names in the text that `rclone lsd` printed.
pub fn bucket_names(stdout: &str) -> (r: Vec<String>)
    ensures
        string_views(r@) == listed_bucket_names(stdout@),
{
    let cs = chars_of(stdout);
    let n = cs.len();
    let mut out: Vec<String> = Vec::new();
    let mut start: usize = 0;
    loop
        invariant
            n == cs@.len(),
            cs@ == stdout@,
            start <= n,
            string_views(out@) + names_from(cs@, start as int) == names_from(cs@, 0),
        decreases n + 1 - start,
    {
        let mut e = start;
        while e < n && cs[e] != '\n'
            invariant
                start <= e <= n,
                n == cs@.len(),
                line_end(cs@, start as int) == line_end(cs@, e as int),
            decreases n - e,
        {
            e = e + 1;
        }
        let ghost before = string_views(out@);
        match last_word_range(&cs, start, e) {
            Some((b, w_end)) => {
                let word = string_from_range(&cs, b, w_end);
                out.push(word);
                proof {
                    assert(string_views(out@) =~= before.push(cs@.subrange(b as int, w_end as int)));
                }
            },
            None => {},
        }
        if e >= n {
            proof {
                assert(names_from(cs@, start as int) =~= string_views(out@).subrange(before.len() as int, out@.len() as int));
                assert(string_views(out@) =~= before + names_from(cs@, start as int));
            }
            return out;
        }
        proof {
            assert(before + names_from(cs@, start as int) =~= string_views(out@) + names_from(cs@, e + 1));
        }
        start = e + 1;
    }
}

} // verus!
