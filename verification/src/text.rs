//! Text operations, stated over sequences of characters.
use vstd::prelude::*;
use vstd::string::*;
use vstd::utf8::*;

verus! {

broadcast use {vstd::string::group_string_axioms, vstd::seq::group_seq_axioms};

// ── Characters ──

/// The characters with the Unicode property `White_Space`.
pub open spec fn is_white(c: char) -> bool {
    ||| '\u{9}' <= c <= '\u{d}'
    ||| c == '\u{20}' || c == '\u{85}' || c == '\u{a0}' || c == '\u{1680}'
    ||| '\u{2000}' <= c <= '\u{200a}'
    ||| c == '\u{2028}' || c == '\u{2029}' || c == '\u{202f}' || c == '\u{205f}' || c == '\u{3000}'
}

/// `char::is_whitespace` tells the characters with the property `White_Space`,
/// which `is_white` lists.
pub assume_specification[ char::is_whitespace ](c: char) -> (r: bool)
    ensures
        r == is_white(c),
;

pub open spec fn is_digit(c: char) -> bool {
    '0' <= c <= '9'
}

/// `String::push` appends one character.
pub assume_specification[ String::push ](s: &mut String, c: char)
    ensures
        final(s)@ == old(s)@.push(c),
;

// ── Conversions ──

/// The characters of `s` in order.
pub fn chars_of(s: &str) -> (v: Vec<char>)
    ensures
        v@ == s@,
{
    let mut v: Vec<char> = Vec::new();
    for c in it: s.chars()
        invariant
            v@ == s@.take(it.index()),
            it.seq() == s@,
    {
        v.push(c);
        assert(s@.take(it.index() + 1) =~= s@.take(it.index()).push(c));
    }
    assert(s@.take(s@.len() as int) =~= s@);
    v
}

/// The text held by `v[from..to]`.
pub fn string_of(v: &Vec<char>, from: usize, to: usize) -> (s: String)
    requires
        from <= to <= v@.len(),
    ensures
        s@ == v@.subrange(from as int, to as int),
{
    let mut s = String::new();
    let mut i: usize = from;
    while i < to
        invariant
            from <= i <= to <= v@.len(),
            s@ == v@.subrange(from as int, i as int),
        decreases to - i,
    {
        s.push(v[i]);
        assert(v@.subrange(from as int, i + 1) =~= v@.subrange(from as int, i as int).push(
            v@[i as int],
        ));
        i = i + 1;
    }
    s
}

/// All of `v` as text.
pub fn text_of(v: &Vec<char>) -> (s: String)
    ensures
        s@ == v@,
{
    let s = string_of(v, 0, v.len());
    assert(v@.subrange(0, v@.len() as int) =~= v@);
    s
}

/// The length of `s` in UTF-8 bytes.
pub open spec fn byte_len(s: Seq<char>) -> nat {
    encode_utf8(s).len()
}

pub fn len_bytes(s: &str) -> (n: usize)
    ensures
        n == byte_len(s@),
{
    s.as_bytes().len()
}

/// Whether two texts hold the same characters.
pub fn same(a: &str, b: &str) -> (r: bool)
    ensures
        r == (a@ == b@),
{
    let x = a.as_bytes();
    let y = b.as_bytes();
    proof {
        encode_utf8_decode_utf8(a@);
        encode_utf8_decode_utf8(b@);
    }
    if x.len() != y.len() {
        return false;
    }
    let mut i: usize = 0;
    while i < x.len()
        invariant
            i <= x@.len() == y@.len(),
            x@ == encode_utf8(a@),
            y@ == encode_utf8(b@),
            forall|j: int| 0 <= j < i ==> x@[j] == y@[j],
        decreases x@.len() - i,
    {
        if x[i] != y[i] {
            return false;
        }
        i = i + 1;
    }
    assert(x@ =~= y@);
    true
}

// ── Concatenation ──

pub fn cat2(a: &str, b: &str) -> (r: String)
    ensures
        r@ == a@ + b@,
{
    let mut r = a.to_owned();
    r.append(b);
    r
}

pub fn cat3(a: &str, b: &str, c: &str) -> (r: String)
    ensures
        r@ == a@ + b@ + c@,
{
    let mut r = cat2(a, b);
    r.append(c);
    r
}

pub fn cat4(a: &str, b: &str, c: &str, d: &str) -> (r: String)
    ensures
        r@ == a@ + b@ + c@ + d@,
{
    let mut r = cat3(a, b, c);
    r.append(d);
    r
}

pub fn cat5(a: &str, b: &str, c: &str, d: &str, e: &str) -> (r: String)
    ensures
        r@ == a@ + b@ + c@ + d@ + e@,
{
    let mut r = cat4(a, b, c, d);
    r.append(e);
    r
}

/// `n` copies of `c`.
pub open spec fn repeated(c: char, n: nat) -> Seq<char> {
    Seq::new(n, |i: int| c)
}

pub fn repeat_char(c: char, n: usize) -> (r: String)
    ensures
        r@ == repeated(c, n as nat),
{
    let mut r = String::new();
    let mut i: usize = 0;
    assert(r@ =~= repeated(c, 0));
    while i < n
        invariant
            i <= n,
            r@ == repeated(c, i as nat),
        decreases n - i,
    {
        r.push(c);
        i = i + 1;
        assert(r@ =~= repeated(c, i as nat));
    }
    r
}

/// `parts` one after the other, with `sep` between neighbours.
pub open spec fn joined(parts: Seq<Seq<char>>, sep: Seq<char>) -> Seq<char>
    decreases parts.len(),
{
    if parts.len() == 0 {
        Seq::empty()
    } else if parts.len() == 1 {
        parts[0]
    } else {
        joined(parts.drop_last(), sep) + sep + parts.last()
    }
}

pub fn join(parts: &Vec<String>, sep: &str) -> (r: String)
    ensures
        r@ == joined(parts.deep_view(), sep@),
{
    let mut r = String::new();
    let mut i: usize = 0;
    let ghost all = parts.deep_view();
    while i < parts.len()
        invariant
            i <= parts@.len(),
            all == parts.deep_view(),
            r@ == joined(all.take(i as int), sep@),
        decreases parts@.len() - i,
    {
        let ghost before = all.take(i as int);
        let ghost after = all.take(i + 1);
        assert(after.drop_last() =~= before);
        if i > 0 {
            r.append(sep);
        }
        r.append(parts[i].as_str());
        assert(after.last() == parts[i as int]@);
        assert(r@ =~= joined(after, sep@));
        i = i + 1;
    }
    assert(all.take(i as int) =~= all);
    r
}

// ── Prefixes, suffixes, search ──

pub fn has_prefix(s: &str, p: &str) -> (r: bool)
    ensures
        r == p@.is_prefix_of(s@),
{
    let v = chars_of(s);
    let q = chars_of(p);
    matches_at(&v, 0, &q)
}

pub fn has_suffix(s: &str, p: &str) -> (r: bool)
    ensures
        r == p@.is_suffix_of(s@),
{
    let v = chars_of(s);
    let q = chars_of(p);
    if q.len() > v.len() {
        return false;
    }
    let start: usize = v.len() - q.len();
    let r = matches_at(&v, start, &q);
    proof {
        let t = v@.skip(start as int);
        assert(t =~= v@.subrange(start as int, v@.len() as int));
        if r {
            assert(t =~= q@);
        }
        if q@.is_suffix_of(v@) {
            assert(t =~= q@);
        }
    }
    r
}

/// Whether `q` stands in `v` at `at`.
pub fn matches_at(v: &Vec<char>, at: usize, q: &Vec<char>) -> (r: bool)
    requires
        at <= v@.len(),
    ensures
        r == q@.is_prefix_of(v@.skip(at as int)),
{
    if v.len() - at < q.len() {
        return false;
    }
    let ghost rest = v@.skip(at as int);
    let mut i: usize = 0;
    while i < q.len()
        invariant
            i <= q@.len(),
            at + q@.len() <= v.len(),
            rest == v@.skip(at as int),
            forall|j: int| 0 <= j < i ==> q@[j] == rest[j],
        decreases q@.len() - i,
    {
        if v[at + i] != q[i] {
            assert(rest[i as int] != q@[i as int]);
            assert(rest.subrange(0, q@.len() as int)[i as int] == rest[i as int]);
            return false;
        }
        i = i + 1;
    }
    assert(rest.subrange(0, q@.len() as int) =~= q@);
    true
}

/// Where `p` stands first in `s`.
pub open spec fn find(s: Seq<char>, p: Seq<char>) -> Option<int>
    decreases s.len(),
{
    if p.is_prefix_of(s) {
        Some(0)
    } else if s.len() == 0 {
        None
    } else {
        match find(s.drop_first(), p) {
            Some(k) => Some(k + 1),
            None => None,
        }
    }
}

/// `find` gives the least index at which the pattern stands, and `None` only
/// where it stands nowhere.
pub proof fn lemma_find(s: Seq<char>, p: Seq<char>)
    ensures
        find(s, p) matches Some(k) ==> {
            &&& 0 <= k
            &&& k + p.len() <= s.len()
            &&& s.subrange(k, k + p.len()) == p
            &&& forall|j: int| 0 <= j < k ==> !p.is_prefix_of(#[trigger] s.skip(j))
        },
        find(s, p) is None ==> forall|j: int| 0 <= j <= s.len() ==> !p.is_prefix_of(#[trigger] s.skip(j)),
    decreases s.len(),
{
    assert(s.skip(0) =~= s);
    if p.is_prefix_of(s) {
        assert(s.subrange(0, p.len() as int) =~= p);
    } else if s.len() > 0 {
        let t = s.drop_first();
        lemma_find(t, p);
        assert forall|j: int| 0 < j <= s.len() implies s.skip(j) == #[trigger] t.skip(j - 1) by {
            assert(s.skip(j) =~= t.skip(j - 1));
        }
        match find(t, p) {
            Some(k) => {
                assert(s.subrange(k + 1, k + 1 + p.len()) =~= t.subrange(k, k + p.len()));
                assert forall|j: int| 0 <= j < k + 1 implies !p.is_prefix_of(#[trigger] s.skip(j)) by {
                    if j > 0 {
                        assert(s.skip(j) == t.skip(j - 1));
                    }
                }
            },
            None => {
                assert forall|j: int| 0 <= j <= s.len() implies !p.is_prefix_of(#[trigger] s.skip(j)) by {
                    if j > 0 {
                        assert(s.skip(j) == t.skip(j - 1));
                    }
                }
            },
        }
    }
}

/// Where `q` stands first in `v` at or after `from`.
pub fn find_from(v: &Vec<char>, from: usize, q: &Vec<char>) -> (r: Option<usize>)
    requires
        from <= v@.len(),
    ensures
        match r {
            Some(k) => from <= k && k + q@.len() <= v@.len() && find(v@.skip(from as int), q@) == Some(
                k - from,
            ),
            None => find(v@.skip(from as int), q@) is None,
        },
{
    let ghost whole = v@.skip(from as int);
    let mut i: usize = from;
    loop
        invariant
            from <= i <= v@.len(),
            whole == v@.skip(from as int),
            find(whole, q@) == (match find(v@.skip(i as int), q@) {
                Some(k) => Some(k + i - from),
                None => None,
            }),
        decreases v@.len() - i,
    {
        if matches_at(v, i, q) {
            return Some(i);
        }
        if i == v.len() {
            return None;
        }
        assert(v@.skip(i as int).drop_first() =~= v@.skip(i + 1));
        i = i + 1;
    }
}

/// Where `p` stands first in `s`, counted in characters.
pub fn find_text(s: &str, p: &str) -> (r: Option<usize>)
    ensures
        match r {
            Some(k) => find(s@, p@) == Some(k as int) && k + p@.len() <= s@.len(),
            None => find(s@, p@) is None,
        },
{
    let v = chars_of(s);
    let q = chars_of(p);
    let r = find_from(&v, 0, &q);
    assert(v@.skip(0) =~= v@);
    r
}

/// Whether `c` occurs in `s`.
pub fn has_char(s: &str, c: char) -> (r: bool)
    ensures
        r == s@.contains(c),
{
    let v = chars_of(s);
    let mut i: usize = 0;
    while i < v.len()
        invariant
            i <= v@.len(),
            v@ == s@,
            forall|j: int| 0 <= j < i ==> v@[j] != c,
        decreases v@.len() - i,
    {
        if v[i] == c {
            assert(s@[i as int] == c);
            return true;
        }
        i = i + 1;
    }
    false
}


// ── Trimming ──

/// `s` without its leading white space.
pub open spec fn trim_start(s: Seq<char>) -> Seq<char>
    decreases s.len(),
{
    if s.len() > 0 && is_white(s[0]) {
        trim_start(s.drop_first())
    } else {
        s
    }
}

/// `s` without its trailing white space.
pub open spec fn trim_end(s: Seq<char>) -> Seq<char>
    decreases s.len(),
{
    if s.len() > 0 && is_white(s.last()) {
        trim_end(s.drop_last())
    } else {
        s
    }
}

/// `s` without white space at either end.
pub open spec fn trim(s: Seq<char>) -> Seq<char> {
    trim_end(trim_start(s))
}

pub fn trimmed_start(s: &str) -> (r: String)
    ensures
        r@ == trim_start(s@),
{
    let v = chars_of(s);
    let mut i: usize = 0;
    assert(v@.skip(0) =~= v@);
    while i < v.len() && v[i].is_whitespace()
        invariant
            i <= v@.len(),
            trim_start(v@) == trim_start(v@.skip(i as int)),
        decreases v@.len() - i,
    {
        assert(v@.skip(i as int).drop_first() =~= v@.skip(i + 1));
        i = i + 1;
    }
    assert(v@.skip(i as int) =~= v@.subrange(i as int, v@.len() as int));
    string_of(&v, i, v.len())
}

pub fn trimmed_end(s: &str) -> (r: String)
    ensures
        r@ == trim_end(s@),
{
    let v = chars_of(s);
    let mut n: usize = v.len();
    assert(v@.take(n as int) =~= v@);
    while n > 0 && v[n - 1].is_whitespace()
        invariant
            n <= v@.len(),
            trim_end(v@) == trim_end(v@.take(n as int)),
        decreases n,
    {
        assert(v@.take(n as int).drop_last() =~= v@.take(n - 1));
        n = n - 1;
    }
    assert(v@.take(n as int) =~= v@.subrange(0, n as int));
    string_of(&v, 0, n)
}

pub fn trimmed(s: &str) -> (r: String)
    ensures
        r@ == trim(s@),
{
    let a = trimmed_start(s);
    trimmed_end(a.as_str())
}

/// `s` without the copies of `c` at its start.
pub open spec fn strip_start(s: Seq<char>, c: char) -> Seq<char>
    decreases s.len(),
{
    if s.len() > 0 && s[0] == c {
        strip_start(s.drop_first(), c)
    } else {
        s
    }
}

/// `s` without the copies of `c` at its end.
pub open spec fn strip_end(s: Seq<char>, c: char) -> Seq<char>
    decreases s.len(),
{
    if s.len() > 0 && s.last() == c {
        strip_end(s.drop_last(), c)
    } else {
        s
    }
}

/// `s` without the copies of `c` at either end.
pub open spec fn strip(s: Seq<char>, c: char) -> Seq<char> {
    strip_end(strip_start(s, c), c)
}

pub fn stripped_end(s: &str, c: char) -> (r: String)
    ensures
        r@ == strip_end(s@, c),
{
    let v = chars_of(s);
    let mut n: usize = v.len();
    assert(v@.take(n as int) =~= v@);
    while n > 0 && v[n - 1] == c
        invariant
            n <= v@.len(),
            strip_end(v@, c) == strip_end(v@.take(n as int), c),
        decreases n,
    {
        assert(v@.take(n as int).drop_last() =~= v@.take(n - 1));
        n = n - 1;
    }
    assert(v@.take(n as int) =~= v@.subrange(0, n as int));
    string_of(&v, 0, n)
}

pub fn stripped(s: &str, c: char) -> (r: String)
    ensures
        r@ == strip(s@, c),
{
    let v = chars_of(s);
    let mut i: usize = 0;
    assert(v@.skip(0) =~= v@);
    while i < v.len() && v[i] == c
        invariant
            i <= v@.len(),
            strip_start(v@, c) == strip_start(v@.skip(i as int), c),
        decreases v@.len() - i,
    {
        assert(v@.skip(i as int).drop_first() =~= v@.skip(i + 1));
        i = i + 1;
    }
    assert(v@.skip(i as int) =~= v@.subrange(i as int, v@.len() as int));
    let rest = string_of(&v, i, v.len());
    stripped_end(rest.as_str(), c)
}

// ── Splitting ──

/// `line` without one trailing carriage return.
pub open spec fn chomp(line: Seq<char>) -> Seq<char> {
    if line.len() > 0 && line.last() == '\r' {
        line.drop_last()
    } else {
        line
    }
}

/// The lines of `head` followed by `s`, where `head` holds no line feed.
pub open spec fn lines_after(head: Seq<char>, s: Seq<char>) -> Seq<Seq<char>>
    decreases s.len(),
{
    if s.len() == 0 {
        if head.len() == 0 {
            Seq::empty()
        } else {
            seq![head]
        }
    } else if s[0] == '\n' {
        seq![chomp(head)] + lines_after(Seq::empty(), s.drop_first())
    } else {
        lines_after(head.push(s[0]), s.drop_first())
    }
}

/// The lines of `s`: each ends at a line feed, which it leaves out together
/// with a carriage return before it; what follows the last line feed is a line
/// of its own unless it is empty.
pub open spec fn lines(s: Seq<char>) -> Seq<Seq<char>> {
    lines_after(Seq::empty(), s)
}

pub fn lines_of(s: &str) -> (r: Vec<String>)
    ensures
        r.deep_view() == lines(s@),
{
    let v = chars_of(s);
    let mut r: Vec<String> = Vec::new();
    let mut head = String::new();
    let mut i: usize = 0;
    assert(v@.skip(0) =~= v@);
    assert(r.deep_view() + lines_after(head@, v@.skip(0)) =~= lines(v@));
    while i < v.len()
        invariant
            i <= v@.len(),
            lines(v@) == r.deep_view() + lines_after(head@, v@.skip(i as int)),
        decreases v@.len() - i,
    {
        let c = v[i];
        let ghost before = r.deep_view();
        let ghost rest = v@.skip(i as int);
        assert(rest.drop_first() =~= v@.skip(i + 1));
        if c == '\n' {
            let line = without_carriage_return(head.as_str());
            r.push(line);
            head = String::new();
            assert(r.deep_view() =~= before.push(line@));
            assert(before.push(line@) + lines_after(head@, v@.skip(i + 1)) =~= before + (seq![line@]
                + lines_after(head@, v@.skip(i + 1))));
        } else {
            head.push(c);
        }
        i = i + 1;
    }
    let ghost before = r.deep_view();
    if !head.as_str().is_empty() {
        let ghost last = head@;
        r.push(head);
        assert(r.deep_view() =~= before + seq![last]);
    } else {
        assert(before =~= before + Seq::<Seq<char>>::empty());
    }
    r
}

fn without_carriage_return(line: &str) -> (r: String)
    ensures
        r@ == chomp(line@),
{
    let v = chars_of(line);
    let n: usize = if v.len() > 0 && v[v.len() - 1] == '\r' {
        v.len() - 1
    } else {
        v.len()
    };
    assert(v@.subrange(0, n as int) =~= chomp(v@));
    string_of(&v, 0, n)
}

/// The pieces of `head` followed by `s` between occurrences of `c`, where
/// `head` holds no `c`.
pub open spec fn pieces_after(head: Seq<char>, s: Seq<char>, c: char) -> Seq<Seq<char>>
    decreases s.len(),
{
    if s.len() == 0 {
        seq![head]
    } else if s[0] == c {
        seq![head] + pieces_after(Seq::empty(), s.drop_first(), c)
    } else {
        pieces_after(head.push(s[0]), s.drop_first(), c)
    }
}

/// The pieces of `s` between occurrences of `c`, one more than there are
/// occurrences.
pub open spec fn pieces(s: Seq<char>, c: char) -> Seq<Seq<char>> {
    pieces_after(Seq::empty(), s, c)
}

pub fn split_at_char(s: &str, c: char) -> (r: Vec<String>)
    ensures
        r.deep_view() == pieces(s@, c),
{
    let v = chars_of(s);
    let mut r: Vec<String> = Vec::new();
    let mut head = String::new();
    let mut i: usize = 0;
    assert(v@.skip(0) =~= v@);
    assert(r.deep_view() + pieces_after(head@, v@.skip(0), c) =~= pieces(v@, c));
    while i < v.len()
        invariant
            i <= v@.len(),
            pieces(v@, c) == r.deep_view() + pieces_after(head@, v@.skip(i as int), c),
        decreases v@.len() - i,
    {
        let ch = v[i];
        let ghost before = r.deep_view();
        let ghost rest = v@.skip(i as int);
        assert(rest.drop_first() =~= v@.skip(i + 1));
        if ch == c {
            let ghost piece = head@;
            r.push(head);
            head = String::new();
            assert(r.deep_view() =~= before.push(piece));
            assert(before.push(piece) + pieces_after(head@, v@.skip(i + 1), c) =~= before + (seq![piece]
                + pieces_after(head@, v@.skip(i + 1), c)));
        } else {
            head.push(ch);
        }
        i = i + 1;
    }
    let ghost before = r.deep_view();
    let ghost last = head@;
    r.push(head);
    assert(r.deep_view() =~= before + seq![last]);
    r
}

/// The words of `head` followed by `s`, where `head` is a run without white
/// space.
pub open spec fn words_after(head: Seq<char>, s: Seq<char>) -> Seq<Seq<char>>
    decreases s.len(),
{
    let done = if head.len() == 0 {
        Seq::<Seq<char>>::empty()
    } else {
        seq![head]
    };
    if s.len() == 0 {
        done
    } else if is_white(s[0]) {
        done + words_after(Seq::empty(), s.drop_first())
    } else {
        words_after(head.push(s[0]), s.drop_first())
    }
}

/// The longest runs of `s` without white space, in order.
pub open spec fn words(s: Seq<char>) -> Seq<Seq<char>> {
    words_after(Seq::empty(), s)
}

pub fn words_of(s: &str) -> (r: Vec<String>)
    ensures
        r.deep_view() == words(s@),
{
    let v = chars_of(s);
    let mut r: Vec<String> = Vec::new();
    let mut head = String::new();
    let mut i: usize = 0;
    assert(v@.skip(0) =~= v@);
    assert(r.deep_view() + words_after(head@, v@.skip(0)) =~= words(v@));
    while i < v.len()
        invariant
            i <= v@.len(),
            words(v@) == r.deep_view() + words_after(head@, v@.skip(i as int)),
        decreases v@.len() - i,
    {
        let c = v[i];
        let ghost before = r.deep_view();
        let ghost rest = v@.skip(i as int);
        let ghost tail = words_after(Seq::empty(), v@.skip(i + 1));
        assert(rest.drop_first() =~= v@.skip(i + 1));
        if c.is_whitespace() {
            if !head.as_str().is_empty() {
                let ghost word = head@;
                r.push(head);
                head = String::new();
                assert(r.deep_view() =~= before.push(word));
                assert(before.push(word) + tail =~= before + (seq![word] + tail));
            } else {
                assert(head@ =~= Seq::<char>::empty());
                assert(Seq::<Seq<char>>::empty() + tail =~= tail);
            }
        } else {
            head.push(c);
        }
        i = i + 1;
    }
    let ghost before = r.deep_view();
    if !head.as_str().is_empty() {
        let ghost word = head@;
        r.push(head);
        assert(r.deep_view() =~= before + seq![word]);
    } else {
        assert(before =~= before + Seq::<Seq<char>>::empty());
    }
    r
}

// ── Replacing ──

/// `s` with `to` in place of each `c`.
pub open spec fn swap_char(s: Seq<char>, c: char, to: Seq<char>) -> Seq<char>
    decreases s.len(),
{
    if s.len() == 0 {
        Seq::empty()
    } else {
        swap_char(s.drop_last(), c, to) + (if s.last() == c {
            to
        } else {
            seq![s.last()]
        })
    }
}

pub fn replace_char(s: &str, c: char, to: &str) -> (r: String)
    ensures
        r@ == swap_char(s@, c, to@),
{
    let v = chars_of(s);
    let mut r = String::new();
    let mut i: usize = 0;
    while i < v.len()
        invariant
            i <= v@.len(),
            r@ == swap_char(v@.take(i as int), c, to@),
        decreases v@.len() - i,
    {
        let ghost next = v@.take(i + 1);
        assert(next.drop_last() =~= v@.take(i as int));
        let ghost before = r@;
        if v[i] == c {
            r.append(to);
        } else {
            r.push(v[i]);
            assert(r@ =~= before + seq![v@[i as int]]);
        }
        i = i + 1;
    }
    assert(v@.take(i as int) =~= v@);
    r
}

/// `s` with `to` in place of each occurrence of `from`, taken from the left
/// without overlap; `from` is not empty.
pub open spec fn replaced(s: Seq<char>, from: Seq<char>, to: Seq<char>) -> Seq<char>
    decreases s.len(),
{
    if from.len() == 0 || s.len() == 0 {
        s
    } else if from.is_prefix_of(s) {
        to + replaced(s.skip(from.len() as int), from, to)
    } else {
        seq![s[0]] + replaced(s.drop_first(), from, to)
    }
}

pub fn replace_text(s: &str, from: &str, to: &str) -> (r: String)
    requires
        from@.len() > 0,
    ensures
        r@ == replaced(s@, from@, to@),
{
    let v = chars_of(s);
    let q = chars_of(from);
    let mut r = String::new();
    let mut i: usize = 0;
    assert(v@.skip(0) =~= v@);
    assert(r@ + replaced(v@.skip(0), q@, to@) =~= replaced(v@, q@, to@));
    while i < v.len()
        invariant
            i <= v@.len(),
            q@.len() > 0,
            replaced(v@, q@, to@) == r@ + replaced(v@.skip(i as int), q@, to@),
        decreases v@.len() - i,
    {
        let ghost rest = v@.skip(i as int);
        let ghost before = r@;
        if matches_at(&v, i, &q) {
            r.append(to);
            assert(rest.skip(q@.len() as int) =~= v@.skip(i + q@.len()));
            assert(before + (to@ + replaced(v@.skip(i + q@.len()), q@, to@)) =~= r@ + replaced(
                v@.skip(i + q@.len()),
                q@,
                to@,
            ));
            i = i + q.len();
        } else {
            r.push(v[i]);
            assert(rest.drop_first() =~= v@.skip(i + 1));
            assert(before + (seq![rest[0]] + replaced(v@.skip(i + 1), q@, to@)) =~= r@ + replaced(
                v@.skip(i + 1),
                q@,
                to@,
            ));
            i = i + 1;
        }
    }
    assert(v@.skip(i as int) =~= Seq::<char>::empty());
    assert(r@ + Seq::<char>::empty() =~= r@);
    r
}

/// A text in which the first character of `from` occurs only where `from` once
/// stands has `to` there instead, and is otherwise as it was.
pub proof fn replaced_once(head: Seq<char>, from: Seq<char>, tail: Seq<char>, to: Seq<char>)
    requires
        from.len() > 0,
        !head.contains(from[0]),
        !tail.contains(from[0]),
    ensures
        replaced(head + from + tail, from, to) == head + to + tail,
        replaced(head, from, to) == head,
    decreases head.len(),
{
    let s = head + from + tail;
    if head.len() == 0 {
        assert(s =~= from + tail);
        assert(s.subrange(0, from.len() as int) =~= from);
        assert(s.skip(from.len() as int) =~= tail);
        lemma_not_replaced(tail, from, to);
        assert(to + tail =~= head + to + tail);
    } else {
        let rest = head.drop_first();
        assert(head[0] != from[0]) by {
            assert(head.contains(head[0]));
        }
        assert forall|i: int| 0 <= i < rest.len() implies rest[i] != from[0] by {
            assert(rest[i] == head[i + 1]);
            assert(head.contains(head[i + 1]));
        }
        replaced_once(rest, from, tail, to);
        assert(s.drop_first() =~= rest + from + tail);
        assert(!from.is_prefix_of(s)) by {
            if from.is_prefix_of(s) {
                assert(s.subrange(0, from.len() as int)[0] == s[0]);
            }
        }
        assert(seq![head[0]] + (rest + to + tail) =~= head + to + tail);
        lemma_not_replaced(head, from, to);
    }
}

proof fn lemma_not_replaced(s: Seq<char>, from: Seq<char>, to: Seq<char>)
    requires
        from.len() > 0,
        !s.contains(from[0]),
    ensures
        replaced(s, from, to) == s,
    decreases s.len(),
{
    if s.len() > 0 {
        let rest = s.drop_first();
        assert(s[0] != from[0]) by {
            assert(s.contains(s[0]));
        }
        assert forall|i: int| 0 <= i < rest.len() implies rest[i] != from[0] by {
            assert(rest[i] == s[i + 1]);
            assert(s.contains(s[i + 1]));
        }
        lemma_not_replaced(rest, from, to);
        assert(!from.is_prefix_of(s)) by {
            if from.is_prefix_of(s) {
                assert(s.subrange(0, from.len() as int)[0] == s[0]);
            }
        }
        assert(seq![s[0]] + rest =~= s);
    }
}

// ── Limits in bytes ──

/// The length of `c` in UTF-8 bytes.
pub open spec fn char_bytes(c: char) -> nat {
    encode_scalar(c as u32).len()
}

pub fn bytes_of_char(c: char) -> (n: usize)
    ensures
        n == char_bytes(c),
        1 <= n <= 4,
{
    let u: u32 = c as u32;
    proof {
        char_u32_cast(c, u);
    }
    if u <= 0x7f {
        1
    } else if u <= 0x7ff {
        2
    } else if u <= 0xffff {
        3
    } else {
        4
    }
}

/// The longest start of `s` that takes at most `max` bytes.
pub open spec fn fit(s: Seq<char>, max: nat) -> Seq<char>
    decreases s.len(),
{
    if s.len() == 0 || char_bytes(s[0]) > max {
        Seq::empty()
    } else {
        seq![s[0]] + fit(s.drop_first(), (max - char_bytes(s[0])) as nat)
    }
}

/// The text that `fit` keeps is a start of the whole, within the limit, and
/// one character more would pass the limit.
pub proof fn fit_is_longest(s: Seq<char>, max: nat)
    ensures
        fit(s, max).is_prefix_of(s),
        byte_len(fit(s, max)) <= max,
        fit(s, max).len() < s.len() ==> byte_len(s.take(fit(s, max).len() as int + 1)) > max,
        byte_len(s) <= max ==> fit(s, max) == s,
    decreases s.len(),
{
    if s.len() > 0 {
        let rest = s.drop_first();
        let one = char_bytes(s[0]);
        if one <= max {
            let left = (max - one) as nat;
            fit_is_longest(rest, left);
            let kept = fit(rest, left);
            let r = fit(s, max);
            assert(r.drop_first() =~= kept);
            assert(r =~= s.subrange(0, r.len() as int)) by {
                assert(kept =~= rest.subrange(0, kept.len() as int));
            }
            if r.len() < s.len() {
                assert(s.take(r.len() as int + 1).drop_first() =~= rest.take(kept.len() as int + 1));
            }
            if byte_len(s) <= max {
                assert(r =~= s);
            }
        } else {
            assert(s.take(1).drop_first() =~= Seq::<char>::empty());
            assert(s.take(1)[0] == s[0]);
            assert(Seq::<char>::empty() =~= s.subrange(0, 0));
        }
    } else {
        assert(fit(s, max) =~= s);
    }
}

/// The text that `fit` keeps of a longer one leaves less room than a character
/// can take.
pub proof fn fit_is_tight(s: Seq<char>, max: nat)
    requires
        byte_len(s) > max,
    ensures
        max < byte_len(fit(s, max)) + 4,
    decreases s.len(),
{
    if s.len() > 0 {
        char_u32_cast(s[0], s[0] as u32);
        let rest = s.drop_first();
        let one = char_bytes(s[0]);
        if one <= max {
            let left = (max - one) as nat;
            fit_is_tight(rest, left);
            assert(fit(s, max).drop_first() =~= fit(rest, left));
        }
    }
}

/// Of ASCII text as many characters fit as there are bytes.
pub proof fn ascii_fits(s: Seq<char>, max: nat)
    requires
        is_ascii_chars(s),
    ensures
        byte_len(s) == s.len(),
        fit(s, max) == (if s.len() <= max {
            s
        } else {
            s.take(max as int)
        }),
    decreases s.len(),
{
    if s.len() > 0 {
        let rest = s.drop_first();
        assert forall|i: int| 0 <= i < rest.len() implies '\0' <= #[trigger] rest[i] <= '\u{7f}' by {
            assert(rest[i] == s[i + 1]);
        }
        assert('\0' <= s[0] <= '\u{7f}');
        char_u32_cast(s[0], s[0] as u32);
        assert(char_bytes(s[0]) == 1);
        if max > 0 {
            ascii_fits(rest, (max - 1) as nat);
        } else {
            ascii_fits(rest, 0);
        }
        assert(fit(s, max) =~= (if s.len() <= max {
            s
        } else {
            s.take(max as int)
        }));
    } else {
        assert(fit(s, max) =~= s);
    }
}

/// The longest start of `s` that takes at most `max` bytes.
pub fn fitting(s: &str, max: usize) -> (r: String)
    ensures
        r@ == fit(s@, max as nat),
{
    let v = chars_of(s);
    let mut left: usize = max;
    let mut i: usize = 0;
    assert(v@.skip(0) =~= v@);
    assert(v@.take(0) + fit(v@, max as nat) =~= fit(v@, max as nat));
    while i < v.len()
        invariant
            i <= v@.len(),
            v@ == s@,
            fit(v@, max as nat) == v@.take(i as int) + fit(v@.skip(i as int), left as nat),
        decreases v@.len() - i,
    {
        let n: usize = bytes_of_char(v[i]);
        let ghost rest = v@.skip(i as int);
        if n > left {
            assert(v@.take(i as int) + Seq::<char>::empty() =~= v@.subrange(0, i as int));
            return string_of(&v, 0, i);
        }
        assert(rest.drop_first() =~= v@.skip(i + 1));
        left = left - n;
        assert(v@.take(i as int) + (seq![rest[0]] + fit(v@.skip(i + 1), left as nat)) =~= v@.take(
            i + 1,
        ) + fit(v@.skip(i + 1), left as nat));
        i = i + 1;
    }
    assert(v@.take(i as int) + Seq::<char>::empty() =~= v@.subrange(0, i as int));
    string_of(&v, 0, i)
}

// ── Bytes as text ──

/// What `String::from_utf8_lossy` makes of `bytes`.
pub uninterp spec fn utf8_lossy(bytes: Seq<u8>) -> Seq<char>;

/// Calls `String::from_utf8_lossy`. Bytes that are UTF-8 are read as they are;
/// what stands for the others is left to it.
#[verifier::external_body]
pub(crate) fn from_bytes(bytes: &Vec<u8>) -> (r: String)
    ensures
        r@ == utf8_lossy(bytes@),
        valid_utf8(bytes@) ==> r@ == decode_utf8(bytes@),
{
    String::from_utf8_lossy(bytes).into_owned()
}

/// Calls `std::str::from_utf8`, which refuses bytes that are not UTF-8.
#[verifier::external_body]
pub(crate) fn read_utf8(bytes: &Vec<u8>) -> (r: Option<String>)
    ensures
        r.deep_view() == (if valid_utf8(bytes@) {
            Some(decode_utf8(bytes@))
        } else {
            None
        }),
{
    std::str::from_utf8(bytes).ok().map(|s| s.to_string())
}

/// Whether `char::is_alphanumeric` says that `c` is a letter or a number.
pub uninterp spec fn is_alphanumeric(c: char) -> bool;

/// `char::is_alphanumeric` goes by the Unicode properties `Alphabetic` and
/// `Numeric`. Of ASCII characters these are the letters and the digits.
pub assume_specification[ char::is_alphanumeric ](c: char) -> (r: bool)
    ensures
        r == is_alphanumeric(c),
        (c as u32) < 128 ==> r == ('a' <= c <= 'z' || 'A' <= c <= 'Z' || '0' <= c <= '9'),
;

// ── Laws ──

/// Whether `p` stands somewhere in `s`.
pub open spec fn holds(s: Seq<char>, p: Seq<char>) -> bool {
    exists|k: int|
        #![trigger s.subrange(k, k + p.len())]
        0 <= k && k + p.len() <= s.len() && s.subrange(k, k + p.len()) == p
}

/// A text holds each of the texts that it is put together from, and what one of
/// these holds.
pub proof fn whole_holds_parts(a: Seq<char>, b: Seq<char>, c: Seq<char>, p: Seq<char>)
    requires
        holds(b, p),
    ensures
        holds(a + b + c, p),
{
    let k = choose|k: int|
        #![trigger b.subrange(k, k + p.len())]
        0 <= k && k + p.len() <= b.len() && b.subrange(k, k + p.len()) == p;
    let s = a + b + c;
    let at = a.len() + k;
    assert(s.subrange(at, at + p.len()) =~= b.subrange(k, k + p.len()));
}

/// A text holds itself.
pub proof fn holds_itself(s: Seq<char>)
    ensures
        holds(s, s),
{
    let k: int = 0;
    assert(s.subrange(k, k + s.len()) =~= s);
}

/// What is found is held, and what is held is found.
pub proof fn found_is_held(s: Seq<char>, p: Seq<char>)
    ensures
        find(s, p) is Some <==> holds(s, p),
{
    lemma_find(s, p);
    if let Some(k) = find(s, p) {
        assert(s.subrange(k, k + p.len()) == p);
    }
    if holds(s, p) {
        let k = choose|k: int|
            #![trigger s.subrange(k, k + p.len())]
            0 <= k && k + p.len() <= s.len() && s.subrange(k, k + p.len()) == p;
        assert(s.skip(k).subrange(0, p.len() as int) =~= s.subrange(k, k + p.len()));
        assert(p.is_prefix_of(s.skip(k)));
    }
}

/// Trimming takes white space off the ends and nothing else: what is left is a
/// part of the text, only white space stands around it, and it neither starts
/// nor ends with any.
pub proof fn trimming_takes_white_space(s: Seq<char>)
    ensures
        exists|a: int, b: int|
            #![trigger s.subrange(a, b)]
            0 <= a <= b <= s.len() && trim(s) == s.subrange(a, b) && (forall|k: int|
                0 <= k < a || b <= k < s.len() ==> is_white(#[trigger] s[k])),
        trim(s).len() > 0 ==> !is_white(trim(s)[0]) && !is_white(trim(s).last()),
{
    let t = trim_start(s);
    let a = lemma_trim_start(s);
    let n = lemma_trim_end(t);
    assert(trim(s) =~= s.subrange(a, a + n));
    assert forall|k: int| 0 <= k < a || a + n <= k < s.len() implies is_white(#[trigger] s[k]) by {
        if k >= a + n {
            assert(t[k - a] == s[k]);
        }
    }
}

proof fn lemma_trim_start(s: Seq<char>) -> (a: int)
    ensures
        0 <= a <= s.len(),
        trim_start(s) == s.skip(a),
        forall|k: int| 0 <= k < a ==> is_white(#[trigger] s[k]),
        a < s.len() ==> !is_white(s[a]),
    decreases s.len(),
{
    if s.len() > 0 && is_white(s[0]) {
        let rest = s.drop_first();
        let b = lemma_trim_start(rest);
        assert(rest.skip(b) =~= s.skip(b + 1));
        assert forall|k: int| 0 <= k < b + 1 implies is_white(#[trigger] s[k]) by {
            if k > 0 {
                assert(rest[k - 1] == s[k]);
            }
        }
        if b < rest.len() {
            assert(rest[b] == s[b + 1]);
        }
        b + 1
    } else {
        assert(s.skip(0) =~= s);
        0
    }
}

proof fn lemma_trim_end(s: Seq<char>) -> (n: int)
    ensures
        0 <= n <= s.len(),
        trim_end(s) == s.take(n),
        forall|k: int| n <= k < s.len() ==> is_white(#[trigger] s[k]),
        n > 0 ==> !is_white(s[n - 1]),
    decreases s.len(),
{
    if s.len() > 0 && is_white(s.last()) {
        let rest = s.drop_last();
        let n = lemma_trim_end(rest);
        assert(rest.take(n) =~= s.take(n));
        assert forall|k: int| n <= k < s.len() implies is_white(#[trigger] s[k]) by {
            if k < rest.len() {
                assert(rest[k] == s[k]);
            }
        }
        n
    } else {
        assert(s.take(s.len() as int) =~= s);
        s.len() as int
    }
}

/// Trimming at one end takes white space off that end and nothing else.
pub proof fn trimming_one_end(s: Seq<char>)
    ensures
        exists|a: int|
            #![trigger s.skip(a)]
            0 <= a <= s.len() && trim_start(s) == s.skip(a) && (forall|k: int|
                0 <= k < a ==> is_white(#[trigger] s[k])) && (a < s.len() ==> !is_white(s[a])),
        exists|n: int|
            #![trigger s.take(n)]
            0 <= n <= s.len() && trim_end(s) == s.take(n) && (forall|k: int|
                n <= k < s.len() ==> is_white(#[trigger] s[k])) && (n > 0 ==> !is_white(s[n - 1])),
{
    let a = lemma_trim_start(s);
    let n = lemma_trim_end(s);
    assert(trim_start(s) == s.skip(a));
    assert(trim_end(s) == s.take(n));
}

/// A text without white space at its ends is left as it is.
pub proof fn trimmed_stays(s: Seq<char>)
    requires
        s.len() > 0 ==> !is_white(s[0]) && !is_white(s.last()),
    ensures
        trim(s) == s,
{
}

/// Stripping a character off the end takes all copies of it there, and nothing
/// else.
pub proof fn stripping_takes_copies(s: Seq<char>, c: char)
    ensures
        strip_end(s.push(c), c) == strip_end(s, c),
        s.len() == 0 || s.last() != c ==> strip_end(s, c) == s,
        strip_start(seq![c] + s, c) == strip_start(s, c),
        s.len() == 0 || s[0] != c ==> strip_start(s, c) == s,
        strip(s, c) == strip_end(strip_start(s, c), c),
{
    assert(s.push(c).drop_last() =~= s);
    assert((seq![c] + s).drop_first() =~= s);
}

/// Joined texts stand one after the other with the separator between
/// neighbours, and nothing is added or lost.
pub proof fn joining_keeps_parts(a: Seq<Seq<char>>, b: Seq<Seq<char>>, sep: Seq<char>)
    ensures
        joined(Seq::empty(), sep) == Seq::<char>::empty(),
        a.len() == 1 ==> joined(a, sep) == a[0],
        a.len() > 0 && b.len() > 0 ==> joined(a + b, sep) == joined(a, sep) + sep + joined(b, sep),
    decreases b.len(),
{
    if a.len() > 0 && b.len() > 0 {
        let all = a + b;
        assert(all.drop_last() =~= a + b.drop_last());
        assert(all.last() == b.last());
        if b.len() == 1 {
            assert(a + b.drop_last() =~= a);
        } else {
            joining_keeps_parts(a, b.drop_last(), sep);
        }
        assert(joined(all, sep) =~= joined(a, sep) + sep + joined(b, sep));
    }
}

/// A joined text holds each of its parts.
pub proof fn joined_holds_parts(parts: Seq<Seq<char>>, sep: Seq<char>, i: int)
    requires
        0 <= i < parts.len(),
    ensures
        holds(joined(parts, sep), parts[i]),
    decreases parts.len(),
{
    holds_itself(parts[i]);
    if parts.len() > 1 {
        let none = Seq::<char>::empty();
        let rest = parts.drop_last();
        if i < rest.len() {
            joined_holds_parts(rest, sep, i);
            whole_holds_parts(none, joined(rest, sep), sep + parts.last(), parts[i]);
            assert(none + joined(rest, sep) + (sep + parts.last()) =~= joined(parts, sep));
        } else {
            whole_holds_parts(joined(rest, sep) + sep, parts.last(), none, parts[i]);
            assert(joined(rest, sep) + sep + parts.last() + none =~= joined(parts, sep));
        }
    }
}

/// A line ends at a line feed, and what follows is read as if it stood alone.
/// The line leaves out the line feed and one carriage return before it. The
/// last line may lack its line feed; it is a line unless it is empty.
pub proof fn lines_end_at_line_feeds(line: Seq<char>, rest: Seq<char>)
    requires
        !line.contains('\n'),
    ensures
        lines(line + seq!['\n'] + rest) == seq![chomp(line)] + lines(rest),
        lines(line) == (if line.len() == 0 {
            Seq::empty()
        } else {
            seq![line]
        }),
        chomp(line.push('\r')) == line,
        line.len() == 0 || line.last() != '\r' ==> chomp(line) == line,
{
    assert(line.push('\r').drop_last() =~= line);
    let none = Seq::<char>::empty();
    lemma_lines_after(none, line, rest);
    assert(none + line =~= line);
}

proof fn lemma_lines_after(head: Seq<char>, line: Seq<char>, rest: Seq<char>)
    requires
        !line.contains('\n'),
    ensures
        lines_after(head, line + seq!['\n'] + rest) == seq![chomp(head + line)] + lines(rest),
        lines_after(head, line) == (if (head + line).len() == 0 {
            Seq::empty()
        } else {
            seq![head + line]
        }),
    decreases line.len(),
{
    let s = line + seq!['\n'] + rest;
    if line.len() == 0 {
        assert(head + line =~= head);
        assert(s.drop_first() =~= rest);
    } else {
        let tail = line.drop_first();
        assert(line.contains(line[0]));
        assert forall|i: int| 0 <= i < tail.len() implies tail[i] != '\n' by {
            assert(tail[i] == line[i + 1]);
            assert(line.contains(line[i + 1]));
        }
        assert(s.drop_first() =~= tail + seq!['\n'] + rest);
        assert(head.push(line[0]) + tail =~= head + line);
        lemma_lines_after(head.push(line[0]), tail, rest);
    }
}

/// Pieces end at the character between them, and no character but those is
/// left out.
pub proof fn pieces_end_at_the_character(piece: Seq<char>, rest: Seq<char>, c: char)
    requires
        !piece.contains(c),
    ensures
        pieces(piece + seq![c] + rest, c) == seq![piece] + pieces(rest, c),
        pieces(piece, c) == seq![piece],
{
    let none = Seq::<char>::empty();
    lemma_pieces_after(none, piece, rest, c);
    assert(none + piece =~= piece);
}

proof fn lemma_pieces_after(head: Seq<char>, piece: Seq<char>, rest: Seq<char>, c: char)
    requires
        !piece.contains(c),
    ensures
        pieces_after(head, piece + seq![c] + rest, c) == seq![head + piece] + pieces(rest, c),
        pieces_after(head, piece, c) == seq![head + piece],
    decreases piece.len(),
{
    let s = piece + seq![c] + rest;
    if piece.len() == 0 {
        assert(head + piece =~= head);
        assert(s.drop_first() =~= rest);
    } else {
        let tail = piece.drop_first();
        assert(piece.contains(piece[0]));
        assert forall|i: int| 0 <= i < tail.len() implies tail[i] != c by {
            assert(tail[i] == piece[i + 1]);
            assert(piece.contains(piece[i + 1]));
        }
        assert(s.drop_first() =~= tail + seq![c] + rest);
        assert(head.push(piece[0]) + tail =~= head + piece);
        lemma_pieces_after(head.push(piece[0]), tail, rest, c);
    }
}

/// The bytes of two texts add up.
pub proof fn bytes_of_both(a: Seq<char>, b: Seq<char>)
    ensures
        byte_len(a + b) == byte_len(a) + byte_len(b),
    decreases a.len(),
{
    if a.len() == 0 {
        no_bytes();
        assert(a + b =~= b);
    } else {
        assert((a + b).drop_first() =~= a.drop_first() + b);
        bytes_of_both(a.drop_first(), b);
    }
}

/// Empty text takes no bytes.
pub proof fn no_bytes()
    ensures
        forall|s: Seq<char>| s.len() == 0 ==> #[trigger] byte_len(s) == 0,
{
}

/// Whether a text holds no white space.
pub open spec fn is_solid(s: Seq<char>) -> bool {
    forall|i: int| 0 <= i < s.len() ==> !is_white(#[trigger] s[i])
}

/// Words end at white space, and white space between them does not count.
pub proof fn words_end_at_white_space(word: Seq<char>, c: char, rest: Seq<char>)
    requires
        is_solid(word),
        is_white(c),
    ensures
        words(word + seq![c] + rest) == (if word.len() == 0 {
            Seq::empty()
        } else {
            seq![word]
        }) + words(rest),
        words(word) == (if word.len() == 0 {
            Seq::empty()
        } else {
            seq![word]
        }),
{
    let none = Seq::<char>::empty();
    lemma_words_after(none, word, c, rest);
    assert(none + word =~= word);
}

proof fn lemma_words_after(head: Seq<char>, word: Seq<char>, c: char, rest: Seq<char>)
    requires
        is_solid(word),
        is_white(c),
    ensures
        words_after(head, word + seq![c] + rest) == (if (head + word).len() == 0 {
            Seq::empty()
        } else {
            seq![head + word]
        }) + words(rest),
        words_after(head, word) == (if (head + word).len() == 0 {
            Seq::empty()
        } else {
            seq![head + word]
        }),
    decreases word.len(),
{
    let s = word + seq![c] + rest;
    if word.len() == 0 {
        assert(head + word =~= head);
        assert(s.drop_first() =~= rest);
    } else {
        let tail = word.drop_first();
        assert forall|i: int| 0 <= i < tail.len() implies !is_white(#[trigger] tail[i]) by {
            assert(tail[i] == word[i + 1]);
        }
        assert(s.drop_first() =~= tail + seq![c] + rest);
        assert(head.push(word[0]) + tail =~= head + word);
        lemma_words_after(head.push(word[0]), tail, c, rest);
    }
}

/// Putting a text in place of a character works character by character: other
/// characters stay as they are.
pub proof fn swapping_goes_by_characters(a: Seq<char>, b: Seq<char>, c: char, to: Seq<char>)
    ensures
        swap_char(a + b, c, to) == swap_char(a, c, to) + swap_char(b, c, to),
        swap_char(seq![c], c, to) == to,
        forall|d: char| d != c ==> #[trigger] swap_char(seq![d], c, to) == seq![d],
    decreases b.len(),
{
    let none = Seq::<char>::empty();
    assert forall|d: char| true implies #[trigger] swap_char(seq![d], c, to) == (if d == c {
        to
    } else {
        seq![d]
    }) by {
        assert(seq![d].drop_last() =~= none);
        assert(swap_char(none, c, to) =~= none);
        assert(none + to =~= to);
        assert(none + seq![d] =~= seq![d]);
    }
    if b.len() == 0 {
        assert(a + b =~= a);
        assert(swap_char(a, c, to) + swap_char(b, c, to) =~= swap_char(a, c, to));
    } else {
        swapping_goes_by_characters(a, b.drop_last(), c, to);
        assert((a + b).drop_last() =~= a + b.drop_last());
        assert(swap_char(a + b, c, to) =~= swap_char(a, c, to) + swap_char(b, c, to));
    }
}

/// Replacing goes from occurrence to occurrence: what stands before the first
/// stays, the new text takes its place, and what follows it is treated alike.
pub proof fn replacing_goes_by_occurrences(s: Seq<char>, from: Seq<char>, to: Seq<char>)
    requires
        from.len() > 0,
    ensures
        match find(s, from) {
            Some(k) => replaced(s, from, to) == s.take(k) + to + replaced(
                s.skip(k + from.len()),
                from,
                to,
            ),
            None => replaced(s, from, to) == s,
        },
    decreases s.len(),
{
    lemma_find(s, from);
    if s.len() > 0 {
        if from.is_prefix_of(s) {
            assert(s.take(0) =~= Seq::<char>::empty());
            assert(Seq::<char>::empty() + to =~= to);
        } else {
            let rest = s.drop_first();
            lemma_find(rest, from);
            replacing_goes_by_occurrences(rest, from, to);
            match find(rest, from) {
                Some(k) => {
                    assert(rest.skip(k + from.len()) =~= s.skip(k + 1 + from.len()));
                    assert(seq![s[0]] + rest.take(k) =~= s.take(k + 1));
                    assert(replaced(s, from, to) =~= s.take(k + 1) + to + replaced(
                        s.skip(k + 1 + from.len()),
                        from,
                        to,
                    ));
                },
                None => {
                    assert(seq![s[0]] + rest =~= s);
                },
            }
        }
    }
}

} // verus!
