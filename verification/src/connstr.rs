//! Writing parameter values into an rclone connection string
//! (`:backend,param=value,...:path`). A value that holds `:`, `,` or a quote character
//! is written in double quotes, with each double quote inside it doubled; any other
//! value is written as it is.
use vstd::prelude::*;
use crate::text::{chars_of, push_char};

verus! {

/// A character that a bare value cannot hold.
pub open spec fn is_special(c: char) -> bool {
    c == ':' || c == ',' || c == '"' || c == '\''
}

/// The value holds a character that makes quotes necessary.
pub open spec fn needs_quotes(v: Seq<char>) -> bool {
    exists|i: int| 0 <= i < v.len() && is_special(#[trigger] v[i])
}

/// `v` with each double quote doubled.
pub open spec fn doubled_quotes(v: Seq<char>) -> Seq<char>
    decreases v.len(),
{
    if v.len() == 0 {
        Seq::empty()
    } else {
        (if v[0] == '"' { seq!['"', '"'] } else { seq![v[0]] }) + doubled_quotes(v.skip(1))
    }
}

/// How the value `v` is written in a connection string.
pub open spec fn quoted_value(v: Seq<char>) -> Seq<char> {
    if needs_quotes(v) {
        seq!['"'] + doubled_quotes(v) + seq!['"']
    } else {
        v
    }
}

/// How a reader of a connection string takes a double-quoted value apart, from just after
/// its opening quote: a doubled quote stands for one quote, a single quote closes the
/// value. The value, and what follows the closing quote.
pub open spec fn read_quoted(s: Seq<char>) -> (Seq<char>, Seq<char>)
    decreases s.len(),
{
    if s.len() == 0 {
        (Seq::empty(), Seq::empty())
    } else if s[0] == '"' && s.len() >= 2 && s[1] == '"' {
        let (v, rest) = read_quoted(s.skip(2));
        (seq!['"'] + v, rest)
    } else if s[0] == '"' {
        (Seq::empty(), s.skip(1))
    } else {
        let (v, rest) = read_quoted(s.skip(1));
        (seq![s[0]] + v, rest)
    }
}

/// A quoted value reads back as the value itself, and the reader resumes right after the
/// closing quote, whatever follows that does not begin with a quote.
pub proof fn lemma_quoted_value_reads_back(v: Seq<char>, rest: Seq<char>)
    requires
        rest.len() == 0 || rest[0] != '"',
    ensures
        read_quoted(doubled_quotes(v) + seq!['"'] + rest) == (v, rest),
    decreases v.len(),
{
    let s = doubled_quotes(v) + seq!['"'] + rest;
    if v.len() == 0 {
        assert(doubled_quotes(v) =~= Seq::<char>::empty());
        assert(s =~= seq!['"'] + rest);
        assert(s.skip(1) =~= rest);
    } else {
        lemma_quoted_value_reads_back(v.skip(1), rest);
        let tail = doubled_quotes(v.skip(1)) + seq!['"'] + rest;
        if v[0] == '"' {
            assert(s =~= seq!['"', '"'] + tail);
            assert(s.skip(2) =~= tail);
        } else {
            assert(s =~= seq![v[0]] + tail);
            assert(s.skip(1) =~= tail);
        }
        assert(seq![v[0]] + v.skip(1) =~= v);
    }
}

/// Appends `v`, doubling each double quote.
fn push_doubled(s: &mut String, v: &Vec<char>)
    ensures
        final(s)@ == old(s)@ + doubled_quotes(v@),
{
    let ghost start = s@;
    let n = v.len();
    let mut k: usize = 0;
    assert(v@.skip(0) =~= v@);
    while k < n
        invariant
            n == v@.len(),
            k <= n,
            s@ + doubled_quotes(v@.skip(k as int)) == start + doubled_quotes(v@),
        decreases n - k,
    {
        let c = v[k];
        let ghost before = s@;
        let ghost t = v@.skip(k as int);
        proof {
            assert(t[0] == c);
            assert(t.skip(1) =~= v@.skip(k + 1));
        }
        if c == '"' {
            push_char(s, '"');
            push_char(s, '"');
            assert(s@ =~= before + seq!['"', '"']);
        } else {
            push_char(s, c);
            assert(s@ =~= before + seq![c]);
        }
        proof {
            let prefix = if c == '"' { seq!['"', '"'] } else { seq![c] };
            assert(doubled_quotes(t) == prefix + doubled_quotes(t.skip(1)));
            assert(s@ =~= before + prefix);
            assert(s@ + doubled_quotes(v@.skip(k + 1)) =~= before + doubled_quotes(t));
        }
        k = k + 1;
    }
    assert(v@.skip(n as int) =~= Seq::<char>::empty());
    assert(doubled_quotes(v@.skip(n as int)) =~= Seq::<char>::empty());
    assert(s@ =~= s@ + doubled_quotes(v@.skip(n as int)));
}

/// Appends the value `v` as a connection string writes it.
pub fn push_value(s: &mut String, v: &str)
    ensures
        final(s)@ == old(s)@ + quoted_value(v@),
{
    let cs = chars_of(v);
    let n = cs.len();
    let mut special = false;
    let mut i: usize = 0;
    while i < n
        invariant
            n == cs@.len(),
            i <= n,
            special == (exists|j: int| 0 <= j < i && is_special(#[trigger] cs@[j])),
        decreases n - i,
    {
        let c = cs[i];
        if c == ':' || c == ',' || c == '"' || c == '\'' {
            special = true;
        }
        i = i + 1;
    }
    let ghost before = s@;
    if special {
        push_char(s, '"');
        push_doubled(s, &cs);
        push_char(s, '"');
        assert(s@ =~= before + (seq!['"'] + doubled_quotes(v@) + seq!['"']));
    } else {
        s.append(v);
    }
}

} // verus!
