//! Strings and line-oriented text: the list of known URLs is stored one URL per line.

use vstd::prelude::*;

verus! {

/// The character sequences held by a sequence of strings.
pub open spec fn strs(v: Seq<String>) -> Seq<Seq<char>> {
    v.map_values(|s: String| s@)
}

/// `str == str` of std: compares two string slices by their characters.
#[verifier::external_body]
pub(crate) fn str_equal(a: &str, b: &str) -> (r: bool)
    ensures
        r == (a@ == b@),
{
    a == b
}

/// `String::push` of std: appends one character to the string.
#[verifier::external_body]
pub(crate) fn string_push(s: &mut String, c: char)
    ensures
        final(s)@ == old(s)@.push(c),
{
    s.push(c)
}

/// Whether `s` is one of the strings of `v`.
pub fn contains_string(v: &Vec<String>, s: &str) -> (r: bool)
    ensures
        r == strs(v@).contains(s@),
{
    let n = v.len();
    for i in 0..n
        invariant
            n == v@.len(),
            forall|j: int| 0 <= j < i ==> v@[j]@ != s@,
    {
        if str_equal(v[i].as_str(), s) {
            assert(strs(v@)[i as int] == s@);
            return true;
        }
    }
    assert forall|j: int| 0 <= j < strs(v@).len() implies strs(v@)[j] != s@ by {
        assert(strs(v@)[j] == v@[j]@);
    }
    false
}

/// The pieces of `s` between newline characters, as `str::split('\n')` yields them:
/// one more piece than there are newlines, empty pieces included.
pub open spec fn split_lines(s: Seq<char>) -> Seq<Seq<char>>
    decreases s.len(),
{
    if s.len() == 0 {
        seq![Seq::empty()]
    } else {
        let prev = split_lines(s.drop_last());
        if s.last() == '\n' {
            prev.push(Seq::empty())
        } else {
            prev.update(prev.len() - 1, prev.last().push(s.last()))
        }
    }
}

/// The non-empty ones of `pieces`, in their order.
pub open spec fn non_empty(pieces: Seq<Seq<char>>) -> Seq<Seq<char>>
    decreases pieces.len(),
{
    if pieces.len() == 0 {
        Seq::empty()
    } else {
        let rest = non_empty(pieces.drop_last());
        if pieces.last().len() > 0 {
            rest.push(pieces.last())
        } else {
            rest
        }
    }
}

/// The entries of a list of known URLs stored as text: its non-empty lines.
pub open spec fn stored_entries(s: Seq<char>) -> Seq<Seq<char>> {
    non_empty(split_lines(s))
}

/// The text that stores `items`: each one followed by a newline.
pub open spec fn joined_lines(items: Seq<Seq<char>>) -> Seq<char>
    decreases items.len(),
{
    if items.len() == 0 {
        Seq::empty()
    } else {
        joined_lines(items.drop_last()) + items.last() + seq!['\n']
    }
}

pub proof fn lemma_split_lines_nonempty(s: Seq<char>)
    ensures
        split_lines(s).len() >= 1,
    decreases s.len(),
{
    if s.len() > 0 {
        lemma_split_lines_nonempty(s.drop_last());
    }
}

/// Splits `s` at every newline, as `str::split('\n')` does.
pub fn split_newlines(s: &str) -> (r: Vec<String>)
    ensures
        strs(r@) == split_lines(s@),
{
    let mut pieces: Vec<String> = Vec::new();
    let mut cur = String::new();
    assert(s@.take(0) =~= Seq::<char>::empty());
    for c in it: s.chars()
        invariant
            it.seq() == s@,
            split_lines(s@.take(it.index() as int)) == strs(pieces@).push(cur@),
    {
        let ghost before = s@.take(it.index() as int);
        proof {
            lemma_split_lines_nonempty(before);
        }
        if c == '\n' {
            let done = cur;
            pieces.push(done);
            cur = String::new();
        } else {
            string_push(&mut cur, c);
        }
        assert(s@.take(it.index() + 1).drop_last() =~= before);
        assert(strs(pieces@).push(cur@) =~= split_lines(s@.take(it.index() + 1)));
    }
    assert(s@.take(s@.len() as int) =~= s@);
    pieces.push(cur);
    assert(strs(pieces@) =~= split_lines(s@));
    pieces
}


/// The list of known URLs stored in `data`: its non-empty lines.
pub fn parse_ignores(data: &str) -> (r: Vec<String>)
    ensures
        strs(r@) == stored_entries(data@),
{
    let pieces = split_newlines(data);
    let mut out: Vec<String> = Vec::new();
    let n = pieces.len();
    assert(pieces@.take(0) =~= Seq::<String>::empty());
    for i in 0..n
        invariant
            n == pieces@.len(),
            strs(pieces@) == split_lines(data@),
            strs(out@) == non_empty(strs(pieces@.take(i as int))),
    {
        let piece = &pieces[i];
        assert(strs(pieces@.take(i + 1)).drop_last() =~= strs(pieces@.take(i as int)));
        assert(strs(pieces@.take(i + 1)).last() == piece@);
        if !piece.as_str().is_empty() {
            out.push(piece.clone());
            assert(strs(out@) =~= non_empty(strs(pieces@.take(i + 1))));
        }
    }
    assert(pieces@.take(n as int) =~= pieces@);
    out
}

/// The text that stores `items`: each one followed by a newline, as `writeln!` writes them.
pub fn format_lines(items: &Vec<String>) -> (r: String)
    ensures
        r@ == joined_lines(strs(items@)),
{
    let mut out = String::new();
    let n = items.len();
    for i in 0..n
        invariant
            n == items@.len(),
            out@ == joined_lines(strs(items@.take(i as int))),
    {
        proof {
            reveal_strlit("\n");
        }
        out.append(items[i].as_str());
        out.append("\n");
        assert(strs(items@.take(i + 1)).drop_last() =~= strs(items@.take(i as int)));
        assert(out@ =~= joined_lines(strs(items@.take(i + 1))));
    }
    assert(items@.take(n as int) =~= items@);
    out
}

/// A line without newline characters.
pub open spec fn is_line(x: Seq<char>) -> bool {
    forall|k: int| 0 <= k < x.len() ==> x[k] != '\n'
}

proof fn lemma_split_append_line(s: Seq<char>, x: Seq<char>)
    requires
        is_line(x),
    ensures
        split_lines(s + x) == split_lines(s).update(
            split_lines(s).len() - 1,
            split_lines(s).last() + x,
        ),
    decreases x.len(),
{
    lemma_split_lines_nonempty(s);
    if x.len() == 0 {
        assert(s + x =~= s);
        assert(split_lines(s).last() + x =~= split_lines(s).last());
        assert(split_lines(s).update(split_lines(s).len() - 1, split_lines(s).last())
            =~= split_lines(s));
    } else {
        let y = x.drop_last();
        lemma_split_append_line(s, y);
        assert((s + x).drop_last() =~= s + y);
        assert((s + x).last() == x.last());
        assert(split_lines(s + y).last() + seq![x.last()] =~= split_lines(s).last() + x) by {
            assert(x =~= y.push(x.last()));
        }
        assert(split_lines(s + x) =~= split_lines(s).update(
            split_lines(s).len() - 1,
            split_lines(s).last() + x,
        ));
    }
}

proof fn lemma_split_joined(items: Seq<Seq<char>>)
    requires
        forall|i: int| 0 <= i < items.len() ==> is_line(#[trigger] items[i]),
    ensures
        split_lines(joined_lines(items)) == items.push(Seq::empty()),
    decreases items.len(),
{
    if items.len() == 0 {
        assert(split_lines(Seq::<char>::empty()) =~= items.push(Seq::empty()));
    } else {
        let prev = items.drop_last();
        let x = items.last();
        assert(is_line(items[items.len() - 1]));
        lemma_split_joined(prev);
        let j = joined_lines(prev);
        lemma_split_append_line(j, x);
        let whole = joined_lines(items);
        assert(whole =~= (j + x).push('\n'));
        assert(whole.drop_last() =~= j + x);
        assert(Seq::<char>::empty() + x =~= x);
        assert(split_lines(j + x) =~= items);
        assert(split_lines(whole) =~= items.push(Seq::empty()));
    }
}

proof fn lemma_non_empty_all(items: Seq<Seq<char>>)
    requires
        forall|i: int| 0 <= i < items.len() ==> (#[trigger] items[i]).len() > 0,
    ensures
        non_empty(items) == items,
    decreases items.len(),
{
    if items.len() > 0 {
        let prev = items.drop_last();
        assert forall|i: int| 0 <= i < prev.len() implies (#[trigger] prev[i]).len() > 0 by {
            assert(prev[i] == items[i]);
        }
        lemma_non_empty_all(prev);
        assert(items[items.len() - 1].len() > 0);
        assert(prev.push(items.last()) =~= items);
    }
}

/// Reading back a stored list gives the list that was stored, when every entry
/// is non-empty and holds no newline.
pub proof fn lemma_stored_entries_roundtrip(items: Seq<Seq<char>>)
    requires
        forall|i: int| 0 <= i < items.len() ==> (#[trigger] items[i]).len() > 0 && is_line(items[i]),
    ensures
        stored_entries(joined_lines(items)) == items,
{
    assert forall|i: int| 0 <= i < items.len() implies is_line(#[trigger] items[i]) by {}
    lemma_split_joined(items);
    let with_last = items.push(Seq::empty());
    assert(with_last.drop_last() =~= items);
    lemma_non_empty_all(items);
}

/// The stored list never holds an empty entry.
pub proof fn lemma_stored_entries_non_empty(s: Seq<char>)
    ensures
        forall|i: int| 0 <= i < stored_entries(s).len() ==> (#[trigger] stored_entries(s)[i]).len() > 0,
{
    lemma_non_empty_entries(split_lines(s));
}

proof fn lemma_non_empty_entries(pieces: Seq<Seq<char>>)
    ensures
        forall|i: int| 0 <= i < non_empty(pieces).len() ==> (#[trigger] non_empty(pieces)[i]).len() > 0,
    decreases pieces.len(),
{
    if pieces.len() > 0 {
        let rest = non_empty(pieces.drop_last());
        lemma_non_empty_entries(pieces.drop_last());
        assert forall|i: int| 0 <= i < non_empty(pieces).len() implies (
        #[trigger] non_empty(pieces)[i]).len() > 0 by {
            if i < rest.len() {
                assert(non_empty(pieces)[i] == rest[i]);
            }
        }
    }
}


/// The character of a decimal digit.
pub open spec fn digit_char(d: nat) -> char {
    if d == 0 {
        '0'
    } else if d == 1 {
        '1'
    } else if d == 2 {
        '2'
    } else if d == 3 {
        '3'
    } else if d == 4 {
        '4'
    } else if d == 5 {
        '5'
    } else if d == 6 {
        '6'
    } else if d == 7 {
        '7'
    } else if d == 8 {
        '8'
    } else {
        '9'
    }
}

/// The decimal digits of `n`, without leading zeros, as `{}` formats an integer.
pub open spec fn decimal(n: nat) -> Seq<char>
    decreases n,
{
    if n < 10 {
        seq![digit_char(n)]
    } else {
        decimal(n / 10).push(digit_char(n % 10))
    }
}

fn digit_of(d: u64) -> (c: char)
    requires
        d < 10,
    ensures
        c == digit_char(d as nat),
{
    if d == 0 {
        '0'
    } else if d == 1 {
        '1'
    } else if d == 2 {
        '2'
    } else if d == 3 {
        '3'
    } else if d == 4 {
        '4'
    } else if d == 5 {
        '5'
    } else if d == 6 {
        '6'
    } else if d == 7 {
        '7'
    } else if d == 8 {
        '8'
    } else {
        '9'
    }
}

/// Appends the decimal digits of `n` to `s`.
pub fn push_decimal(s: &mut String, n: u64)
    ensures
        final(s)@ == old(s)@ + decimal(n as nat),
    decreases n,
{
    if n >= 10 {
        push_decimal(s, n / 10);
    }
    string_push(s, digit_of(n % 10));
    assert(s@ =~= old(s)@ + decimal(n as nat));
}

} // verus!
