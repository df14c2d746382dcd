//! Text in contracts: a text is the sequence of its characters.

use vstd::prelude::*;
use vstd::std_specs::iter::IteratorSpec;
use vstd::string::*;

verus! {

/// The decimal digit for a value below ten.
pub open spec fn digit_char(d: int) -> char {
    if d == 0 {
        '0'
    } else if d == 1 {
        '1'
    } else if d == 2 {
        '2'
    } else if d == 3 {
        '3'
    } else if d == 4 {
        '4'
    } else if d == 5 {
        '5'
    } else if d == 6 {
        '6'
    } else if d == 7 {
        '7'
    } else if d == 8 {
        '8'
    } else {
        '9'
    }
}

/// A number in decimal digits, without leading zeros; zero is "0".
pub open spec fn decimal(n: nat) -> Seq<char>
    decreases n,
{
    if n < 10 {
        seq![digit_char(n as int)]
    } else {
        decimal(n / 10).push(digit_char((n % 10) as int))
    }
}

/// The text of one decimal digit.
fn digit_text(d: u64) -> (r: &'static str)
    requires
        d < 10,
    ensures
        r@ == seq![digit_char(d as int)],
{
    proof {
        reveal_strlit("0");
        reveal_strlit("1");
        reveal_strlit("2");
        reveal_strlit("3");
        reveal_strlit("4");
        reveal_strlit("5");
        reveal_strlit("6");
        reveal_strlit("7");
        reveal_strlit("8");
        reveal_strlit("9");
    }
    let r: &'static str = if d == 0 {
        "0"
    } else if d == 1 {
        "1"
    } else if d == 2 {
        "2"
    } else if d == 3 {
        "3"
    } else if d == 4 {
        "4"
    } else if d == 5 {
        "5"
    } else if d == 6 {
        "6"
    } else if d == 7 {
        "7"
    } else if d == 8 {
        "8"
    } else {
        "9"
    };
    assert(r@ =~= seq![digit_char(d as int)]);
    r
}

/// Writes a number in decimal digits at the end of a text.
pub fn push_decimal(out: &mut String, n: u64)
    ensures
        final(out)@ == old(out)@ + decimal(n as nat),
    decreases n,
{
    if n >= 10 {
        push_decimal(out, n / 10);
    }
    out.append(digit_text(n % 10));
    proof {
        if n >= 10 {
            assert(old(out)@ + decimal((n / 10) as nat) + seq![digit_char((n % 10) as int)] =~= old(
                out,
            )@ + decimal(n as nat));
        } else {
            assert(n % 10 == n);
        }
    }
}

/// A text with every letter in upper case, as the standard library turns it.
pub uninterp spec fn uppercase_of(text: Seq<char>) -> Seq<char>;

/// A text with every letter in lower case, as the standard library turns it.
pub uninterp spec fn lowercase_of(text: Seq<char>) -> Seq<char>;

/// Calls `str::to_uppercase`. Nothing is claimed of the result but that it
/// depends on the characters of the text alone.
#[verifier::external_body]
pub(crate) fn to_uppercase(text: &str) -> (r: String)
    ensures
        r@ == uppercase_of(text@),
{
    text.to_uppercase()
}

/// Calls `str::to_lowercase`. Nothing is claimed of the result but that it
/// depends on the characters of the text alone.
#[verifier::external_body]
pub(crate) fn to_lowercase(text: &str) -> (r: String)
    ensures
        r@ == lowercase_of(text@),
{
    text.to_lowercase()
}

/// Calls `String::push`, which appends one character to the end of a text.
#[verifier::external_body]
pub(crate) fn push_char(out: &mut String, c: char)
    ensures
        final(out)@ == old(out)@.push(c),
{
    out.push(c)
}

/// The text that holds the characters of a vector, in their order.
pub fn text_of(chars: &Vec<char>) -> (r: String)
    ensures
        r@ == chars@,
{
    let mut r = String::new();
    let mut i: usize = 0;
    while i < chars.len()
        invariant
            i <= chars.len(),
            r@ == chars@.take(i as int),
        decreases chars.len() - i,
    {
        push_char(&mut r, chars[i]);
        assert(r@ =~= chars@.take(i + 1));
        i = i + 1;
    }
    assert(chars@.take(chars.len() as int) =~= chars@);
    r
}

/// White space, as Unicode defines it.
pub open spec fn is_space(c: char) -> bool {
    let code = c as u32;
    ||| 0x09 <= code <= 0x0d
    ||| code == 0x20
    ||| code == 0x85
    ||| code == 0xa0
    ||| code == 0x1680
    ||| 0x2000 <= code <= 0x200a
    ||| code == 0x2028
    ||| code == 0x2029
    ||| code == 0x202f
    ||| code == 0x205f
    ||| code == 0x3000
}

/// A text without the white space at its end.
pub open spec fn trim_end(s: Seq<char>) -> Seq<char>
    decreases s.len(),
{
    if s.len() > 0 && is_space(s.last()) {
        trim_end(s.drop_last())
    } else {
        s
    }
}

/// A text without the white space at its start.
pub open spec fn trim_start(s: Seq<char>) -> Seq<char>
    decreases s.len(),
{
    if s.len() > 0 && is_space(s[0]) {
        trim_start(s.drop_first())
    } else {
        s
    }
}

/// A text without the white space at its start and at its end.
pub open spec fn trimmed(s: Seq<char>) -> Seq<char> {
    trim_start(trim_end(s))
}

/// The pieces of a text between separators. An empty text is one empty piece;
/// every separator ends a piece and starts the next.
pub open spec fn split_on(s: Seq<char>, separator: char) -> Seq<Seq<char>>
    decreases s.len(),
{
    if s.len() == 0 {
        seq![Seq::empty()]
    } else {
        let before = split_on(s.drop_last(), separator);
        if s.last() == separator {
            before.push(Seq::empty())
        } else {
            before.drop_last().push(before.last().push(s.last()))
        }
    }
}

/// A line without the carriage return at its end, where it has one.
pub open spec fn without_return(line: Seq<char>) -> Seq<char> {
    if line.len() > 0 && line.last() == '\r' {
        line.drop_last()
    } else {
        line
    }
}

/// The lines of a text. A line ends with a line feed, or with a carriage
/// return and a line feed; the last line may end with the text. Only a line
/// that a line feed ended loses a carriage return.
pub open spec fn lines_of(s: Seq<char>) -> Seq<Seq<char>> {
    let pieces = split_on(s, '\n');
    let ended = pieces.drop_last().map_values(|line: Seq<char>| without_return(line));
    if pieces.last().len() == 0 {
        ended
    } else {
        ended.push(pieces.last())
    }
}

/// `pattern` stands somewhere in `s`.
pub open spec fn has_text(s: Seq<char>, pattern: Seq<char>) -> bool {
    exists|i: int| stands_at(s, pattern, i)
}

/// `pattern` stands in `s` at place `i`.
pub open spec fn stands_at(s: Seq<char>, pattern: Seq<char>, i: int) -> bool {
    0 <= i && i + pattern.len() <= s.len() && s.subrange(i, i + pattern.len()) == pattern
}

/// The texts of a list of vectors of characters.
pub open spec fn texts_of(pieces: Seq<Vec<char>>) -> Seq<Seq<char>> {
    pieces.map_values(|piece: Vec<char>| piece@)
}

/// Tells white space from other characters.
pub fn is_whitespace(c: char) -> (r: bool)
    ensures
        r == is_space(c),
{
    let code: u32 = c as u32;
    (0x09 <= code && code <= 0x0d) || code == 0x20 || code == 0x85 || code == 0xa0 || code
        == 0x1680 || (0x2000 <= code && code <= 0x200a) || code == 0x2028 || code == 0x2029 || code
        == 0x202f || code == 0x205f || code == 0x3000
}

/// The characters from `from` up to `to`.
pub fn slice_of(chars: &Vec<char>, from: usize, to: usize) -> (r: Vec<char>)
    requires
        from <= to <= chars.len(),
    ensures
        r@ == chars@.subrange(from as int, to as int),
{
    let mut r: Vec<char> = Vec::new();
    let mut i: usize = from;
    while i < to
        invariant
            from <= i <= to <= chars.len(),
            r@ == chars@.subrange(from as int, i as int),
        decreases to - i,
    {
        r.push(chars[i]);
        assert(r@ =~= chars@.subrange(from as int, i + 1));
        i = i + 1;
    }
    assert(chars@.subrange(from as int, from as int) =~= Seq::<char>::empty());
    r
}

/// A text without the white space at its start and at its end.
pub fn trim(chars: &Vec<char>) -> (r: Vec<char>)
    ensures
        r@ == trimmed(chars@),
{
    let mut to: usize = chars.len();
    assert(chars@.take(to as int) =~= chars@);
    while to > 0 && is_whitespace(chars[to - 1])
        invariant
            to <= chars.len(),
            trim_end(chars@) == trim_end(chars@.take(to as int)),
        decreases to,
    {
        assert(chars@.take(to as int).drop_last() =~= chars@.take(to - 1));
        to = to - 1;
    }
    let ghost kept = chars@.take(to as int);
    assert(trim_end(chars@) == kept);
    let mut from: usize = 0;
    assert(chars@.subrange(0, to as int) =~= kept);
    while from < to && is_whitespace(chars[from])
        invariant
            from <= to <= chars.len(),
            kept == chars@.take(to as int),
            trim_start(kept) == trim_start(chars@.subrange(from as int, to as int)),
        decreases to - from,
    {
        assert(chars@.subrange(from as int, to as int).drop_first() =~= chars@.subrange(
            from + 1,
            to as int,
        ));
        from = from + 1;
    }
    slice_of(chars, from, to)
}

/// The pieces of a text between separators.
pub fn split(chars: &Vec<char>, separator: char) -> (pieces: Vec<Vec<char>>)
    ensures
        texts_of(pieces@) == split_on(chars@, separator),
        pieces.len() >= 1,
{
    let mut done: Vec<Vec<char>> = Vec::new();
    let mut current: Vec<char> = Vec::new();
    let mut i: usize = 0;
    assert(chars@.take(0) =~= Seq::<char>::empty());
    assert(texts_of(done@).push(current@) =~= split_on(chars@.take(0), separator));
    while i < chars.len()
        invariant
            i <= chars.len(),
            texts_of(done@).push(current@) == split_on(chars@.take(i as int), separator),
        decreases chars.len() - i,
    {
        let c: char = chars[i];
        let ghost before = split_on(chars@.take(i as int), separator);
        assert(chars@.take(i + 1).drop_last() =~= chars@.take(i as int));
        assert(chars@.take(i + 1).last() == c);
        if c == separator {
            done.push(current);
            current = Vec::new();
            assert(texts_of(done@) =~= before);
            assert(texts_of(done@).push(current@) =~= before.push(Seq::empty()));
        } else {
            current.push(c);
            assert(texts_of(done@) =~= before.drop_last());
            assert(texts_of(done@).push(current@) =~= before.drop_last().push(
                before.last().push(c),
            ));
        }
        i = i + 1;
    }
    assert(chars@.take(chars.len() as int) =~= chars@);
    done.push(current);
    assert(texts_of(done@) =~= split_on(chars@, separator));
    done
}

/// The lines of a text.
pub fn lines(chars: &Vec<char>) -> (r: Vec<Vec<char>>)
    ensures
        texts_of(r@) == lines_of(chars@),
{
    let mut pieces: Vec<Vec<char>> = split(chars, '\n');
    let ghost all = split_on(chars@, '\n');
    assert(all.len() == pieces.len()) by {
        assert(texts_of(pieces@).len() == all.len());
    }
    let last: Vec<char> = match pieces.pop() {
        Some(piece) => piece,
        None => Vec::new(),
    };
    assert(last@ == all.last());
    assert(texts_of(pieces@) =~= all.drop_last());
    let n: usize = pieces.len();
    let mut r: Vec<Vec<char>> = Vec::new();
    let mut i: usize = 0;
    while i < n
        invariant
            i <= n,
            n == pieces.len(),
            all.len() == n + 1,
            texts_of(pieces@) == all.drop_last(),
            r.len() == i,
            forall|j: int| 0 <= j < i ==> (#[trigger] r[j])@ == without_return(all[j]),
        decreases n - i,
    {
        let line: &Vec<char> = &pieces[i];
        assert(line@ == texts_of(pieces@)[i as int]);
        assert(line@ == all[i as int]);
        let m: usize = line.len();
        let kept: Vec<char> = if m > 0 && line[m - 1] == '\r' {
            let k = slice_of(line, 0, m - 1);
            assert(k@ =~= line@.drop_last());
            k
        } else {
            let k = slice_of(line, 0, m);
            assert(k@ =~= line@);
            k
        };
        r.push(kept);
        i = i + 1;
    }
    let ghost ended = all.drop_last().map_values(|line: Seq<char>| without_return(line));
    assert(texts_of(r@) =~= ended);
    if last.len() > 0 {
        r.push(last);
        assert(texts_of(r@) =~= ended.push(all.last()));
    }
    r
}

/// Tells whether a pattern stands somewhere in a text.
pub fn contains_text(chars: &Vec<char>, pattern: &Vec<char>) -> (r: bool)
    ensures
        r == has_text(chars@, pattern@),
{
    let n: usize = chars.len();
    let m: usize = pattern.len();
    if m > n {
        assert forall|i: int| !stands_at(chars@, pattern@, i) by {}
        return false;
    }
    let mut i: usize = 0;
    while i <= n - m
        invariant
            m <= n,
            n == chars.len(),
            m == pattern.len(),
            i <= n - m + 1,
            forall|j: int| 0 <= j < i ==> !stands_at(chars@, pattern@, j),
        decreases n - m + 1 - i,
    {
        let mut k: usize = 0;
        while k < m && chars[i + k] == pattern[k]
            invariant
                k <= m,
                i + m <= n,
                n == chars.len(),
                m == pattern.len(),
                forall|t: int| 0 <= t < k ==> chars@[i + t] == pattern@[t],
            decreases m - k,
        {
            k = k + 1;
        }
        if k == m {
            assert(chars@.subrange(i as int, i + m) =~= pattern@);
            assert(stands_at(chars@, pattern@, i as int));
            return true;
        }
        assert(!stands_at(chars@, pattern@, i as int)) by {
            if stands_at(chars@, pattern@, i as int) {
                assert(chars@.subrange(i as int, i + m)[k as int] == pattern@[k as int]);
            }
        }
        i = i + 1;
    }
    assert forall|j: int| !stands_at(chars@, pattern@, j) by {}
    false
}

/// The characters of a text.
pub fn chars_of(s: &str) -> (v: Vec<char>)
    ensures
        v@ == s@,
{
    let mut v: Vec<char> = Vec::new();
    let mut it = s.chars();
    assert(it.remaining() == s@);
    loop
        invariant
            v@ + it.remaining() == s@,
            it.decrease() is Some,
        ensures
            v@ == s@,
        decreases it.decrease()->0,
    {
        let ghost before = it.remaining();
        match it.next() {
            Some(c) => {
                v.push(c);
                assert(v@ + it.remaining() =~= s@) by {
                    assert(before =~= seq![c] + before.drop_first());
                }
            },
            None => {
                assert(v@ + it.remaining() =~= v@);
                break ;
            },
        }
    }
    v
}

} // verus!
