//! Text as a sequence of characters.
//!
//! Every rule of the bot is stated over `Seq<char>`. The functions here are the
//! executable counterparts of those statements; positions are counted in characters.

use vstd::prelude::*;
use vstd::string::*;

verus! {

/// `String::push`: appends one character to the end of the string.
pub assume_specification[ String::push ](s: &mut String, ch: char)
    ensures
        final(s)@ == old(s)@.push(ch),
;

// ---------- views of lists of strings ----------

/// The texts held by a list of strings.
pub open spec fn views(v: Seq<String>) -> Seq<Seq<char>> {
    v.map_values(|x: String| x@)
}

/// The text of an optional string.
pub open spec fn opt_view(o: Option<String>) -> Option<Seq<char>> {
    match o {
        Some(s) => Some(s@),
        None => None,
    }
}

// ---------- whitespace ----------

/// The characters with the Unicode `White_Space` property.
pub open spec fn is_space(c: char) -> bool {
    let u = c as u32;
    ||| 0x09 <= u <= 0x0D
    ||| u == 0x20
    ||| u == 0x85
    ||| u == 0xA0
    ||| u == 0x1680
    ||| 0x2000 <= u <= 0x200A
    ||| u == 0x2028
    ||| u == 0x2029
    ||| u == 0x202F
    ||| u == 0x205F
    ||| u == 0x3000
}

pub open spec fn trim_start_of(s: Seq<char>) -> Seq<char>
    decreases s.len(),
{
    if s.len() > 0 && is_space(s[0]) {
        trim_start_of(s.skip(1))
    } else {
        s
    }
}

pub open spec fn trim_end_of(s: Seq<char>) -> Seq<char>
    decreases s.len(),
{
    if s.len() > 0 && is_space(s.last()) {
        trim_end_of(s.drop_last())
    } else {
        s
    }
}

/// The text without the white space at either end.
pub open spec fn trim_of(s: Seq<char>) -> Seq<char> {
    trim_end_of(trim_start_of(s))
}

// ---------- searching ----------

/// `pat` stands in `s` at position `i`.
pub open spec fn occurs_at(s: Seq<char>, pat: Seq<char>, i: int) -> bool {
    0 <= i && i + pat.len() <= s.len() && s.subrange(i, i + pat.len()) == pat
}

/// `pat` stands somewhere in `s`.
pub open spec fn includes(s: Seq<char>, pat: Seq<char>) -> bool {
    exists|i: int| occurs_at(s, pat, i)
}

/// The first position, not before `from`, at which `pat` stands in `s`.
pub open spec fn find_from(s: Seq<char>, pat: Seq<char>, from: int) -> Option<int>
    decreases s.len() - from,
{
    if from < 0 || from + pat.len() > s.len() {
        None
    } else if occurs_at(s, pat, from) {
        Some(from)
    } else if from < s.len() {
        find_from(s, pat, from + 1)
    } else {
        None
    }
}

pub open spec fn find_of(s: Seq<char>, pat: Seq<char>) -> Option<int> {
    find_from(s, pat, 0)
}

/// The first position, not before `from`, of the character `c`.
pub open spec fn char_from(s: Seq<char>, c: char, from: int) -> Option<int>
    decreases s.len() - from,
{
    if from < 0 || from >= s.len() {
        None
    } else if s[from] == c {
        Some(from)
    } else {
        char_from(s, c, from + 1)
    }
}

pub open spec fn find_char_of(s: Seq<char>, c: char) -> Option<int> {
    char_from(s, c, 0)
}

/// The last position of the character `c`.
pub open spec fn rfind_char_of(s: Seq<char>, c: char) -> Option<int>
    decreases s.len(),
{
    if s.len() == 0 {
        None
    } else if s.last() == c {
        Some(s.len() - 1)
    } else {
        rfind_char_of(s.drop_last(), c)
    }
}

/// `s` begins with `pat`.
pub open spec fn begins(s: Seq<char>, pat: Seq<char>) -> bool {
    pat.len() <= s.len() && s.take(pat.len() as int) == pat
}

/// `s` ends with `pat`.
pub open spec fn ends(s: Seq<char>, pat: Seq<char>) -> bool {
    pat.len() <= s.len() && s.skip(s.len() - pat.len()) == pat
}

/// What follows `pat`, where the text begins with it.
pub open spec fn strip_prefix_of(s: Seq<char>, pat: Seq<char>) -> Option<Seq<char>> {
    if begins(s, pat) {
        Some(s.skip(pat.len() as int))
    } else {
        None
    }
}

/// The text without every leading copy of `pat`.
pub open spec fn trim_start_matches_of(s: Seq<char>, pat: Seq<char>) -> Seq<char>
    decreases s.len(),
{
    if pat.len() > 0 && begins(s, pat) {
        trim_start_matches_of(s.skip(pat.len() as int), pat)
    } else {
        s
    }
}

/// The text without every trailing copy of `pat`.
pub open spec fn trim_end_matches_of(s: Seq<char>, pat: Seq<char>) -> Seq<char>
    decreases s.len(),
{
    if pat.len() > 0 && ends(s, pat) {
        trim_end_matches_of(s.take(s.len() - pat.len()), pat)
    } else {
        s
    }
}

/// The first bracketed tag: where it begins with `open` and where it ends, behind the
/// closing bracket. An opening without a closing bracket behind it is no tag.
pub open spec fn tag_of(s: Seq<char>, open: Seq<char>) -> Option<(int, int)> {
    match find_of(s, open) {
        Some(start) => match find_char_of(s.skip(start), ']') {
            Some(i) => Some((start, start + i + 1)),
            None => None,
        },
        None => None,
    }
}

// ---------- cutting and joining ----------

/// The parts before and behind the first `sep`.
pub open spec fn split_once_of(s: Seq<char>, sep: char) -> Option<(Seq<char>, Seq<char>)> {
    match find_char_of(s, sep) {
        Some(i) => Some((s.take(i), s.skip(i + 1))),
        None => None,
    }
}

/// The pieces between the separators: one more than there are separators.
pub open spec fn split_of(s: Seq<char>, sep: char) -> Seq<Seq<char>>
    decreases s.len(),
{
    if s.len() == 0 {
        seq![Seq::<char>::empty()]
    } else {
        let init = split_of(s.drop_last(), sep);
        if s.last() == sep {
            init.push(Seq::<char>::empty())
        } else {
            init.update(init.len() - 1, init.last().push(s.last()))
        }
    }
}

/// The pieces one after the other, with `sep` between neighbours.
pub open spec fn join_of(parts: Seq<Seq<char>>, sep: Seq<char>) -> Seq<char>
    decreases parts.len(),
{
    if parts.len() == 0 {
        Seq::<char>::empty()
    } else if parts.len() == 1 {
        parts[0]
    } else {
        join_of(parts.drop_last(), sep) + sep + parts.last()
    }
}

/// The text without the copies of `pat`, looked for from left to right.
pub open spec fn remove_of(s: Seq<char>, pat: Seq<char>) -> Seq<char>
    decreases s.len(),
{
    if pat.len() == 0 || s.len() < pat.len() {
        s
    } else if s.take(pat.len() as int) == pat {
        remove_of(s.skip(pat.len() as int), pat)
    } else {
        seq![s[0]] + remove_of(s.skip(1), pat)
    }
}

/// The entries of a comma separated list: trimmed, empty ones left out.
pub open spec fn list_of(s: Seq<char>) -> Seq<Seq<char>> {
    kept_entries(split_of(s, ','))
}

pub open spec fn kept_entries(parts: Seq<Seq<char>>) -> Seq<Seq<char>>
    decreases parts.len(),
{
    if parts.len() == 0 {
        Seq::<Seq<char>>::empty()
    } else {
        let t = trim_of(parts.last());
        let init = kept_entries(parts.drop_last());
        if t.len() == 0 {
            init
        } else {
            init.push(t)
        }
    }
}

/// At most the first `n` characters.
pub open spec fn take_of(s: Seq<char>, n: int) -> Seq<char> {
    if s.len() <= n {
        s
    } else {
        s.take(n)
    }
}

/// At most `n` characters; a text that had to be cut ends in an ellipsis.
pub open spec fn truncate_of(s: Seq<char>, n: int) -> Seq<char> {
    if s.len() <= n {
        s
    } else {
        s.take(n) + "…"@
    }
}

// ---------- executable counterparts ----------

/// The characters of a string.
pub fn to_chars(s: &str) -> (r: Vec<char>)
    ensures
        r@ == s@,
{
    let mut r: Vec<char> = Vec::new();
    for c in it: s.chars()
        invariant
            it.seq() == s@,
            r@ == s@.take(it.index() as int),
    {
        r.push(c);
    }
    assert(s@.take(s@.len() as int) == s@);
    r
}

/// The string with the characters of `chars` from `from` up to `to`.
pub fn from_chars(chars: &Vec<char>, from: usize, to: usize) -> (r: String)
    requires
        from <= to <= chars@.len(),
    ensures
        r@ == chars@.subrange(from as int, to as int),
{
    let mut r = String::new();
    let mut i: usize = from;
    while i < to
        invariant
            from <= i <= to <= chars@.len(),
            r@ == chars@.subrange(from as int, i as int),
        decreases to - i,
    {
        r.push(chars[i]);
        i += 1;
        assert(chars@.subrange(from as int, i as int) == chars@.subrange(from as int, i - 1).push(chars@[i - 1]));
    }
    r
}

pub fn is_whitespace(c: char) -> (r: bool)
    ensures
        r == is_space(c),
{
    let u: u32 = c as u32;
    (0x09 <= u && u <= 0x0D) || u == 0x20 || u == 0x85 || u == 0xA0 || u == 0x1680
        || (0x2000 <= u && u <= 0x200A) || u == 0x2028 || u == 0x2029 || u == 0x202F
        || u == 0x205F || u == 0x3000
}

/// Whether the two texts are the same.
pub fn same(a: &str, b: &str) -> (r: bool)
    ensures
        r == (a@ == b@),
{
    a.to_owned() == b.to_owned()
}

proof fn lemma_trim_start_step(s: Seq<char>, i: int)
    requires
        0 <= i < s.len(),
        is_space(s[i]),
    ensures
        trim_start_of(s.skip(i)) == trim_start_of(s.skip(i + 1)),
{
    assert(s.skip(i).skip(1) == s.skip(i + 1));
}

proof fn lemma_trim_end_step(s: Seq<char>, i: int)
    requires
        0 < i <= s.len(),
        is_space(s[i - 1]),
    ensures
        trim_end_of(s.take(i)) == trim_end_of(s.take(i - 1)),
{
    assert(s.take(i).drop_last() == s.take(i - 1));
}

pub fn trim_start(s: &str) -> (r: &str)
    ensures
        r@ == trim_start_of(s@),
{
    let chars = to_chars(s);
    let n: usize = chars.len();
    let mut i: usize = 0;
    assert(s@.skip(0) == s@);
    while i < n && is_whitespace(chars[i])
        invariant
            n == chars@.len(),
            chars@ == s@,
            i <= n,
            trim_start_of(s@.skip(i as int)) == trim_start_of(s@),
        decreases n - i,
    {
        proof {
            lemma_trim_start_step(s@, i as int);
        }
        i += 1;
    }
    let r = s.substring_char(i, n);
    assert(r@ == s@.skip(i as int));
    r
}

pub fn trim_end(s: &str) -> (r: &str)
    ensures
        r@ == trim_end_of(s@),
{
    let chars = to_chars(s);
    let n: usize = chars.len();
    let mut i: usize = n;
    assert(s@.take(n as int) == s@);
    while i > 0 && is_whitespace(chars[i - 1])
        invariant
            n == chars@.len(),
            chars@ == s@,
            i <= n,
            trim_end_of(s@.take(i as int)) == trim_end_of(s@),
        decreases i,
    {
        proof {
            lemma_trim_end_step(s@, i as int);
        }
        i -= 1;
    }
    let r = s.substring_char(0, i);
    assert(r@ == s@.take(i as int));
    r
}

pub fn trim(s: &str) -> (r: &str)
    ensures
        r@ == trim_of(s@),
{
    trim_end(trim_start(s))
}

/// Whether `pat` stands in `chars` at position `i`.
fn stands_at(chars: &Vec<char>, pat: &Vec<char>, i: usize) -> (r: bool)
    ensures
        r == occurs_at(chars@, pat@, i as int),
{
    if i > chars.len() || chars.len() - i < pat.len() {
        return false;
    }
    let n: usize = chars.len();
    let mut k: usize = 0;
    while k < pat.len()
        invariant
            k <= pat@.len(),
            i + pat@.len() <= chars@.len(),
            n == chars@.len(),
            forall|j: int| 0 <= j < k ==> chars@[i + j] == pat@[j],
        decreases pat@.len() - k,
    {
        if chars[i + k] != pat[k] {
            assert(chars@.subrange(i as int, i + pat@.len())[k as int] != pat@[k as int]);
            return false;
        }
        k += 1;
    }
    assert(chars@.subrange(i as int, i + pat@.len()) =~= pat@);
    true
}

/// The first position of `pat`.
pub fn find(s: &str, pat: &str) -> (r: Option<usize>)
    ensures
        match r {
            Some(i) => find_of(s@, pat@) == Some(i as int) && occurs_at(s@, pat@, i as int),
            None => find_of(s@, pat@) is None,
        },
{
    let chars = to_chars(s);
    let p = to_chars(pat);
    let n: usize = chars.len();
    let m: usize = p.len();
    let mut i: usize = 0;
    while m <= n && i <= n - m
        invariant
            n == chars@.len(),
            m == p@.len(),
            chars@ == s@,
            p@ == pat@,
            i <= n,
            find_from(chars@, p@, i as int) == find_of(chars@, p@),
        decreases n + 1 - i,
    {
        if stands_at(&chars, &p, i) {
            return Some(i);
        }
        if i == n {
            return None;
        }
        i += 1;
    }
    None
}

/// The first position of the character `c`.
pub fn find_char(s: &str, c: char) -> (r: Option<usize>)
    ensures
        match r {
            Some(i) => find_char_of(s@, c) == Some(i as int) && i < s@.len() && s@[i as int] == c,
            None => find_char_of(s@, c) is None,
        },
{
    let chars = to_chars(s);
    let n: usize = chars.len();
    let mut i: usize = 0;
    while i < n
        invariant
            n == chars@.len(),
            chars@ == s@,
            i <= n,
            char_from(chars@, c, i as int) == find_char_of(chars@, c),
        decreases n - i,
    {
        if chars[i] == c {
            return Some(i);
        }
        i += 1;
    }
    None
}

/// The last position of the character `c`.
pub fn rfind_char(s: &str, c: char) -> (r: Option<usize>)
    ensures
        match r {
            Some(i) => rfind_char_of(s@, c) == Some(i as int) && i < s@.len() && s@[i as int] == c,
            None => rfind_char_of(s@, c) is None,
        },
{
    let chars = to_chars(s);
    let mut i: usize = chars.len();
    assert(chars@.take(i as int) == chars@);
    while i > 0
        invariant
            chars@ == s@,
            i <= chars@.len(),
            rfind_char_of(chars@.take(i as int), c) == rfind_char_of(chars@, c),
        decreases i,
    {
        assert(chars@.take(i as int).drop_last() == chars@.take(i - 1));
        if chars[i - 1] == c {
            return Some(i - 1);
        }
        i -= 1;
    }
    None
}

/// A found position is one where the text stands; where none is found it stands nowhere.
pub proof fn lemma_find_from(s: Seq<char>, pat: Seq<char>, from: int)
    requires
        0 <= from,
    ensures
        match find_from(s, pat, from) {
            Some(i) => from <= i && occurs_at(s, pat, i) && forall|j: int|
                from <= j < i ==> !occurs_at(s, pat, j),
            None => forall|j: int| from <= j ==> !occurs_at(s, pat, j),
        },
    decreases s.len() - from,
{
    if from + pat.len() > s.len() {
    } else if occurs_at(s, pat, from) {
    } else if from < s.len() {
        lemma_find_from(s, pat, from + 1);
    } else {
        assert forall|j: int| from <= j implies !occurs_at(s, pat, j) by {}
    }
}

pub proof fn lemma_find(s: Seq<char>, pat: Seq<char>)
    ensures
        match find_of(s, pat) {
            Some(i) => occurs_at(s, pat, i) && forall|j: int|
                0 <= j < i ==> !occurs_at(s, pat, j),
            None => !includes(s, pat),
        },
        includes(s, pat) <==> find_of(s, pat) is Some,
{
    lemma_find_from(s, pat, 0);
}

/// The position found for a character holds it, and none before does.
pub proof fn lemma_char_from(s: Seq<char>, c: char, from: int)
    requires
        0 <= from,
    ensures
        match char_from(s, c, from) {
            Some(i) => from <= i < s.len() && s[i] == c && forall|j: int|
                from <= j < i ==> s[j] != c,
            None => forall|j: int| from <= j < s.len() ==> s[j] != c,
        },
    decreases s.len() - from,
{
    if from < s.len() && s[from] != c {
        lemma_char_from(s, c, from + 1);
    }
}

/// Before the first position the text stands nowhere.
pub proof fn lemma_find_first(s: Seq<char>, pat: Seq<char>, from: int, i: int)
    requires
        0 <= from <= i,
        find_from(s, pat, from) matches Some(k) && i < k,
    ensures
        !occurs_at(s, pat, i),
    decreases s.len() - from,
{
    if from < i {
        lemma_find_first(s, pat, from + 1, i);
    }
}

/// A tag lies inside the text and is not empty.
pub proof fn lemma_tag(s: Seq<char>, open: Seq<char>)
    ensures
        match tag_of(s, open) {
            Some((a, b)) => 0 <= a < b <= s.len() && occurs_at(s, open, a) && s[b - 1] == ']',
            None => true,
        },
{
    lemma_find(s, open);
    if let Some(start) = find_of(s, open) {
        lemma_char_from(s.skip(start), ']', 0);
    }
}

/// The first bracketed tag.
pub fn next_tag(s: &str, open: &str) -> (r: Option<(usize, usize)>)
    ensures
        match r {
            Some(t) => tag_of(s@, open@) == Some((t.0 as int, t.1 as int)) && t.0 < t.1 <= s@.len(),
            None => tag_of(s@, open@) is None,
        },
{
    match find(s, open) {
        Some(start) => {
            let n: usize = s.unicode_len();
            let tail = s.substring_char(start, n);
            assert(tail@ == s@.skip(start as int));
            match find_char(tail, ']') {
                Some(i) => Some((start, start + i + 1)),
                None => None,
            }
        },
        None => None,
    }
}

/// The parts before and behind the first `sep`.
pub fn split_once(s: &str, sep: char) -> (r: Option<(&str, &str)>)
    ensures
        match r {
            Some((a, b)) => split_once_of(s@, sep) == Some((a@, b@)),
            None => split_once_of(s@, sep) is None,
        },
{
    match find_char(s, sep) {
        Some(i) => {
            let n: usize = s.unicode_len();
            let a = s.substring_char(0, i);
            let b = s.substring_char(i + 1, n);
            assert(a@ == s@.take(i as int));
            assert(b@ == s@.skip(i + 1));
            Some((a, b))
        },
        None => None,
    }
}

/// Whether `pat` stands somewhere in `s`.
pub fn contains(s: &str, pat: &str) -> (r: bool)
    ensures
        r == includes(s@, pat@),
{
    proof {
        lemma_find(s@, pat@);
    }
    find(s, pat).is_some()
}

/// Whether the character `c` stands somewhere in `s`.
pub fn contains_char(s: &str, c: char) -> (r: bool)
    ensures
        r == s@.contains(c),
{
    proof {
        lemma_char_from(s@, c, 0);
    }
    find_char(s, c).is_some()
}

pub fn starts_with(s: &str, pat: &str) -> (r: bool)
    ensures
        r == begins(s@, pat@),
{
    let chars = to_chars(s);
    let p = to_chars(pat);
    let r = stands_at(&chars, &p, 0);
    assert(pat@.len() <= s@.len() ==> s@.subrange(0, pat@.len() as int) == s@.take(pat@.len() as int));
    r
}

pub fn ends_with(s: &str, pat: &str) -> (r: bool)
    ensures
        r == ends(s@, pat@),
{
    let chars = to_chars(s);
    let p = to_chars(pat);
    if p.len() > chars.len() {
        return false;
    }
    let k: usize = chars.len() - p.len();
    assert(s@.subrange(k as int, s@.len() as int) == s@.skip(k as int));
    stands_at(&chars, &p, k)
}

pub fn strip_prefix<'a>(s: &'a str, pat: &str) -> (r: Option<&'a str>)
    ensures
        match r {
            Some(t) => strip_prefix_of(s@, pat@) == Some(t@),
            None => strip_prefix_of(s@, pat@) is None,
        },
{
    if starts_with(s, pat) {
        let t = s.substring_char(pat.unicode_len(), s.unicode_len());
        assert(t@ == s@.skip(pat@.len() as int));
        Some(t)
    } else {
        None
    }
}

pub fn trim_start_matches<'a>(s: &'a str, pat: &str) -> (r: &'a str)
    ensures
        r@ == trim_start_matches_of(s@, pat@),
{
    let mut rest = s;
    while !pat.is_empty() && starts_with(rest, pat)
        invariant
            trim_start_matches_of(rest@, pat@) == trim_start_matches_of(s@, pat@),
        decreases rest@.len(),
    {
        let next = rest.substring_char(pat.unicode_len(), rest.unicode_len());
        assert(next@ == rest@.skip(pat@.len() as int));
        rest = next;
    }
    rest
}

pub fn trim_end_matches<'a>(s: &'a str, pat: &str) -> (r: &'a str)
    ensures
        r@ == trim_end_matches_of(s@, pat@),
{
    let mut rest = s;
    while !pat.is_empty() && ends_with(rest, pat)
        invariant
            trim_end_matches_of(rest@, pat@) == trim_end_matches_of(s@, pat@),
        decreases rest@.len(),
    {
        let next = rest.substring_char(0, rest.unicode_len() - pat.unicode_len());
        assert(next@ == rest@.take(rest@.len() - pat@.len()));
        rest = next;
    }
    rest
}

/// A text splits into at least one piece.
pub proof fn lemma_split_nonempty(s: Seq<char>, sep: char)
    ensures
        split_of(s, sep).len() >= 1,
    decreases s.len(),
{
    if s.len() > 0 {
        lemma_split_nonempty(s.drop_last(), sep);
    }
}

/// The pieces between the separators.
pub fn split(s: &str, sep: char) -> (r: Vec<String>)
    ensures
        views(r@) == split_of(s@, sep),
        r@.len() >= 1,
{
    let mut r: Vec<String> = Vec::new();
    let mut cur = String::new();
    for c in it: s.chars()
        invariant
            it.seq() == s@,
            views(r@).push(cur@) == split_of(s@.take(it.index() as int), sep),
    {
        proof {
            let t = s@.take(it.index() + 1);
            assert(t.drop_last() == s@.take(it.index() as int));
        }
        let ghost before = r@;
        let ghost cur_before = cur@;
        if c == sep {
            r.push(cur);
            cur = String::new();
            assert(views(r@) == views(before).push(cur_before));
        } else {
            cur.push(c);
            assert(views(before).push(cur@) == views(before).push(cur_before).update(
                views(before).len() as int,
                cur_before.push(c),
            ));
        }
    }
    assert(s@.take(s@.len() as int) == s@);
    let ghost before = r@;
    let ghost cur_before = cur@;
    r.push(cur);
    assert(views(r@) == views(before).push(cur_before));
    r
}

/// The texts one after the other, with `sep` between neighbours.
pub fn join(parts: &Vec<String>, sep: &str) -> (r: String)
    ensures
        r@ == join_of(views(parts@), sep@),
{
    let mut r = String::new();
    let mut i: usize = 0;
    while i < parts.len()
        invariant
            i <= parts@.len(),
            r@ == join_of(views(parts@).take(i as int), sep@),
        decreases parts@.len() - i,
    {
        proof {
            let t = views(parts@).take(i + 1);
            assert(t.drop_last() == views(parts@).take(i as int));
            assert(t.last() == parts@[i as int]@);
        }
        if i > 0 {
            r.append(sep);
            r.append(parts[i].as_str());
        } else {
            r.append(parts[i].as_str());
            assert(r@ == parts@[0]@);
        }
        i += 1;
    }
    assert(views(parts@).take(parts@.len() as int) == views(parts@));
    r
}

/// The text without the copies of `pat`.
pub fn remove(s: &str, pat: &str) -> (r: String)
    ensures
        r@ == remove_of(s@, pat@),
{
    let chars = to_chars(s);
    let p = to_chars(pat);
    let n: usize = chars.len();
    let m: usize = p.len();
    let mut out = String::new();
    let mut i: usize = 0;
    assert(s@.skip(0) == s@);
    while i < n
        invariant
            n == chars@.len(),
            m == p@.len(),
            i <= n,
            out@ + remove_of(chars@.skip(i as int), p@) == remove_of(chars@, p@),
        decreases n - i,
    {
        let ghost rest = chars@.skip(i as int);
        let ghost before = out@;
        if m > 0 && stands_at(&chars, &p, i) {
            assert(rest.take(m as int) == chars@.subrange(i as int, i + m));
            assert(rest.skip(m as int) == chars@.skip(i + m));
            i += m;
        } else {
            proof {
                if m > 0 && m <= n - i {
                    assert(rest.take(m as int) == chars@.subrange(i as int, i + m));
                }
                assert(rest.skip(1) == chars@.skip(i + 1));
                lemma_remove_step(rest, p@);
                assert(before.push(chars@[i as int]) + remove_of(chars@.skip(i + 1), p@) == before + (
                seq![rest[0]] + remove_of(rest.skip(1), p@)));
            }
            out.push(chars[i]);
            i += 1;
        }
    }
    assert(chars@.skip(n as int) == Seq::<char>::empty());
    assert(out@ + Seq::<char>::empty() == out@);
    out
}

proof fn lemma_remove_step(s: Seq<char>, pat: Seq<char>)
    requires
        s.len() > 0,
        !(pat.len() > 0 && begins(s, pat)),
    ensures
        remove_of(s, pat) == seq![s[0]] + remove_of(s.skip(1), pat),
{
    if pat.len() == 0 || s.len() < pat.len() {
        assert(remove_of(s, pat) == s);
        assert(s == seq![s[0]] + s.skip(1));
    }
}

/// The entries of a comma separated list.
pub fn list_entries(s: &str) -> (r: Vec<String>)
    ensures
        views(r@) == list_of(s@),
{
    let parts = split(s, ',');
    let mut r: Vec<String> = Vec::new();
    let mut i: usize = 0;
    while i < parts.len()
        invariant
            i <= parts@.len(),
            views(r@) == kept_entries(views(parts@).take(i as int)),
        decreases parts@.len() - i,
    {
        proof {
            let t = views(parts@).take(i + 1);
            assert(t.drop_last() == views(parts@).take(i as int));
            assert(t.last() == parts@[i as int]@);
        }
        let t = trim(parts[i].as_str());
        if !t.is_empty() {
            let ghost before = r@;
            r.push(t.to_owned());
            assert(views(r@) == views(before).push(t@));
        }
        i += 1;
    }
    assert(views(parts@).take(parts@.len() as int) == views(parts@));
    r
}

/// At most the first `n` characters.
pub fn take(s: &str, n: usize) -> (r: &str)
    ensures
        r@ == take_of(s@, n as int),
{
    let len: usize = s.unicode_len();
    if len <= n {
        s
    } else {
        let r = s.substring_char(0, n);
        assert(r@ == s@.take(n as int));
        r
    }
}

/// At most `n` characters; a text that had to be cut ends in an ellipsis.
pub fn truncate(s: &str, n: usize) -> (r: String)
    ensures
        r@ == truncate_of(s@, n as int),
{
    let len: usize = s.unicode_len();
    if len <= n {
        s.to_owned()
    } else {
        let head = s.substring_char(0, n);
        assert(head@ == s@.take(n as int));
        let mut r = head.to_owned();
        r.append("…");
        r
    }
}

/// `from` replaced by `to` throughout.
pub open spec fn replace_char_of(s: Seq<char>, from: char, to: char) -> Seq<char> {
    s.map_values(
        |c: char|
            if c == from {
                to
            } else {
                c
            },
    )
}

pub fn replace_char(s: &str, from: char, to: char) -> (r: String)
    ensures
        r@ == replace_char_of(s@, from, to),
{
    let mut r = String::new();
    let n: usize = s.unicode_len();
    let mut i: usize = 0;
    while i < n
        invariant
            i <= n,
            n == s@.len(),
            r@ == replace_char_of(s@, from, to).take(i as int),
        decreases n - i,
    {
        let c: char = s.get_char(i);
        let d: char = if c == from {
            to
        } else {
            c
        };
        r.push(d);
        assert(r@ =~= replace_char_of(s@, from, to).take(i + 1));
        i += 1;
    }
    assert(r@ =~= replace_char_of(s@, from, to));
    r
}

/// No piece of a split text holds the separator.
pub proof fn lemma_split_pieces(s: Seq<char>, sep: char)
    ensures
        forall|i: int, k: int|
            0 <= i < split_of(s, sep).len() && 0 <= k < split_of(s, sep)[i].len()
                ==> #[trigger] split_of(s, sep)[i][k] != sep,
    decreases s.len(),
{
    lemma_split_nonempty(s, sep);
    if s.len() > 0 {
        lemma_split_pieces(s.drop_last(), sep);
        lemma_split_nonempty(s.drop_last(), sep);
    }
}

/// The characters of the pieces are those of the text.
pub proof fn lemma_split_from(s: Seq<char>, sep: char)
    ensures
        forall|i: int, k: int|
            0 <= i < split_of(s, sep).len() && 0 <= k < split_of(s, sep)[i].len() ==> s.contains(
                #[trigger] split_of(s, sep)[i][k],
            ),
    decreases s.len(),
{
    lemma_split_nonempty(s, sep);
    if s.len() > 0 {
        let init = s.drop_last();
        lemma_split_from(init, sep);
        lemma_split_nonempty(init, sep);
        let parts = split_of(s, sep);
        assert forall|i: int, k: int|
            0 <= i < parts.len() && 0 <= k < parts[i].len() implies s.contains(
            #[trigger] parts[i][k],
        ) by {
            let before = split_of(init, sep);
            if i < before.len() && k < before[i].len() {
                assert(parts[i][k] == before[i][k]);
                let m = choose|m: int| 0 <= m < init.len() && init[m] == before[i][k];
                assert(s[m] == parts[i][k]);
            } else {
                assert(parts[i][k] == s.last());
                assert(s[s.len() - 1] == parts[i][k]);
            }
        }
    }
}

/// What is left of the text stands at its end and begins with no white space.
pub proof fn lemma_trim_start(s: Seq<char>)
    ensures
        trim_start_of(s).len() <= s.len(),
        trim_start_of(s) == s.skip(s.len() - trim_start_of(s).len()),
        trim_start_of(s).len() > 0 ==> !is_space(trim_start_of(s)[0]),
        forall|i: int| 0 <= i < s.len() - trim_start_of(s).len() ==> is_space(#[trigger] s[i]),
    decreases s.len(),
{
    if s.len() > 0 && is_space(s[0]) {
        let rest = s.skip(1);
        lemma_trim_start(rest);
        let n = trim_start_of(rest).len();
        assert(rest.skip(rest.len() - n) =~= s.skip(s.len() - n));
        assert forall|i: int| 0 <= i < s.len() - n implies is_space(#[trigger] s[i]) by {
            if i > 0 {
                assert(rest[i - 1] == s[i]);
            }
        }
    } else {
        assert(s.skip(0) =~= s);
    }
}

/// What is left of the text stands at its beginning and ends with no white space.
pub proof fn lemma_trim_end(s: Seq<char>)
    ensures
        trim_end_of(s).len() <= s.len(),
        trim_end_of(s) == s.take(trim_end_of(s).len() as int),
        trim_end_of(s).len() > 0 ==> !is_space(trim_end_of(s).last()),
    decreases s.len(),
{
    if s.len() > 0 && is_space(s.last()) {
        let rest = s.drop_last();
        lemma_trim_end(rest);
        let n = trim_end_of(rest).len() as int;
        assert(rest.take(n) =~= s.take(n));
    } else {
        assert(s.take(s.len() as int) =~= s);
    }
}

/// A trimmed text neither begins nor ends with white space.
pub open spec fn is_trimmed(s: Seq<char>) -> bool {
    s.len() == 0 || (!is_space(s[0]) && !is_space(s.last()))
}

/// Trimming makes a text trimmed and takes it from within the text.
pub proof fn lemma_trim(s: Seq<char>)
    ensures
        is_trimmed(trim_of(s)),
        trim_of(s).len() <= trim_start_of(s).len() <= s.len(),
        ({
            let from = s.len() - trim_start_of(s).len();
            trim_of(s) == s.subrange(from, from + trim_of(s).len())
        }),
{
    let a = trim_start_of(s);
    lemma_trim_start(s);
    lemma_trim_end(a);
    let t = trim_of(s);
    let from = s.len() - a.len();
    if t.len() > 0 {
        assert(t[0] == a[0]);
    }
    assert(t =~= s.subrange(from, from + t.len()));
}

/// A trimmed text is left as it is.
pub proof fn lemma_trim_fixed(s: Seq<char>)
    requires
        is_trimmed(s),
    ensures
        trim_of(s) == s,
{
}

/// White space is cut off behind what does not end in it.
pub proof fn lemma_trim_end_concat(a: Seq<char>, b: Seq<char>)
    requires
        a.len() > 0,
        !is_space(a.last()),
    ensures
        trim_end_of(a + b) == a + trim_end_of(b),
    decreases b.len(),
{
    if b.len() == 0 {
        assert(a + b =~= a);
    } else {
        assert((a + b).last() == b.last());
        if is_space(b.last()) {
            assert((a + b).drop_last() =~= a + b.drop_last());
            lemma_trim_end_concat(a, b.drop_last());
        }
    }
}

/// A character that does not occur is not found.
pub proof fn lemma_char_absent(s: Seq<char>, c: char, from: int)
    requires
        0 <= from,
        forall|i: int| 0 <= i < s.len() ==> #[trigger] s[i] != c,
    ensures
        char_from(s, c, from) is None,
    decreases s.len() - from,
{
    if from < s.len() {
        assert(s[from] != c);
        lemma_char_absent(s, c, from + 1);
    }
}

/// The pieces of an ASCII text are ASCII texts.
pub proof fn lemma_split_ascii(s: Seq<char>, sep: char)
    requires
        is_ascii_text(s),
    ensures
        forall|i: int| 0 <= i < split_of(s, sep).len() ==> is_ascii_text(#[trigger] split_of(s, sep)[i]),
    decreases s.len(),
{
    if s.len() > 0 {
        let init = s.drop_last();
        assert forall|i: int| 0 <= i < init.len() implies #[trigger] init[i] < '\u{80}' by {
            assert(s[i] < '\u{80}');
        }
        lemma_split_ascii(init, sep);
        lemma_split_nonempty(init, sep);
        let pieces = split_of(init, sep);
        let all = split_of(s, sep);
        assert(s[s.len() - 1] < '\u{80}');
        assert forall|i: int| 0 <= i < all.len() implies is_ascii_text(#[trigger] all[i]) by {
            if i < pieces.len() {
                assert(is_ascii_text(pieces[i]));
            }
        }
    }
}

/// So is an ASCII text without the white space around it.
pub proof fn lemma_trim_ascii(s: Seq<char>)
    requires
        is_ascii_text(s),
    ensures
        is_ascii_text(trim_of(s)),
{
    lemma_trim(s);
    let from = s.len() - trim_start_of(s).len();
    let t = trim_of(s);
    assert forall|i: int| 0 <= i < t.len() implies #[trigger] t[i] < '\u{80}' by {
        assert(s[from + i] < '\u{80}');
    }
}

/// And so is one without copies of something at its end.
pub proof fn lemma_trim_matches_ascii(s: Seq<char>, pat: Seq<char>)
    requires
        is_ascii_text(s),
    ensures
        is_ascii_text(trim_end_matches_of(s, pat)),
    decreases s.len(),
{
    if pat.len() > 0 && ends(s, pat) {
        let t = s.take(s.len() - pat.len());
        assert forall|i: int| 0 <= i < t.len() implies #[trigger] t[i] < '\u{80}' by {
            assert(s[i] < '\u{80}');
        }
        lemma_trim_matches_ascii(t, pat);
    }
}

/// Trimming twice is trimming once.
pub proof fn lemma_trim_twice(s: Seq<char>)
    ensures
        trim_of(trim_of(s)) == trim_of(s),
{
    lemma_trim(s);
    lemma_trim_fixed(trim_of(s));
}

// ---------- order ----------

/// The order of texts: by the first character in which they differ, a beginning before
/// the whole.
pub open spec fn precedes(a: Seq<char>, b: Seq<char>) -> bool
    decreases a.len(),
{
    if b.len() == 0 {
        false
    } else if a.len() == 0 {
        true
    } else if a[0] != b[0] {
        a[0] < b[0]
    } else {
        precedes(a.skip(1), b.skip(1))
    }
}

/// The order is total: one of two different texts comes first, and only one.
pub proof fn lemma_precedes_total(a: Seq<char>, b: Seq<char>)
    ensures
        precedes(a, b) || precedes(b, a) || a == b,
        !(precedes(a, b) && precedes(b, a)),
        a == b ==> !precedes(a, b),
    decreases a.len(),
{
    if a.len() > 0 && b.len() > 0 && a[0] == b[0] {
        lemma_precedes_total(a.skip(1), b.skip(1));
        if a.skip(1) == b.skip(1) {
            assert(a =~= seq![a[0]] + a.skip(1));
            assert(b =~= seq![b[0]] + b.skip(1));
        }
    } else if a.len() == 0 && b.len() == 0 {
        assert(a =~= b);
    }
}

pub proof fn lemma_precedes_chain(a: Seq<char>, b: Seq<char>, c: Seq<char>)
    requires
        precedes(a, b),
        precedes(b, c),
    ensures
        precedes(a, c),
    decreases a.len(),
{
    if a.len() > 0 && b.len() > 0 && c.len() > 0 && a[0] == b[0] && b[0] == c[0] {
        lemma_precedes_chain(a.skip(1), b.skip(1), c.skip(1));
    }
}

/// Whether a text comes before another.
pub fn is_before(a: &str, b: &str) -> (r: bool)
    ensures
        r == precedes(a@, b@),
{
    let n: usize = a.unicode_len();
    let m: usize = b.unicode_len();
    let mut i: usize = 0;
    assert(a@.skip(0) == a@ && b@.skip(0) == b@);
    while i < n && i < m
        invariant
            i <= n,
            i <= m,
            n == a@.len(),
            m == b@.len(),
            precedes(a@, b@) == precedes(a@.skip(i as int), b@.skip(i as int)),
        decreases n - i,
    {
        let x: char = a.get_char(i);
        let y: char = b.get_char(i);
        if x != y {
            return x < y;
        }
        assert(a@.skip(i as int).skip(1) =~= a@.skip(i + 1));
        assert(b@.skip(i as int).skip(1) =~= b@.skip(i + 1));
        i += 1;
    }
    i < m
}

// ---------- letters and bytes ----------

/// A text in lower case.
pub uninterp spec fn lowercase(s: Seq<char>) -> Seq<char>;

pub open spec fn is_ascii_text(s: Seq<char>) -> bool {
    forall|i: int| 0 <= i < s.len() ==> #[trigger] s[i] < '\u{80}'
}

/// An ASCII text in lower case: a small letter for each capital.
pub open spec fn ascii_lower(s: Seq<char>) -> Seq<char> {
    s.map_values(
        |c: char|
            if 'A' <= c <= 'Z' {
                (c as u32 + 32) as char
            } else {
                c
            },
    )
}

/// `str::to_lowercase`: the text in lower case, by the tables of Unicode; in an ASCII text
/// these change the capital letters to small ones, and nothing else.
#[verifier::external_body]
pub(crate) fn to_lowercase(s: &str) -> (r: String)
    ensures
        r@ == lowercase(s@),
        is_ascii_text(s@) ==> r@ == ascii_lower(s@),
{
    s.to_lowercase()
}

/// The text in a sequence of bytes, with a replacement character for what is not UTF-8.
pub uninterp spec fn lossy_text(bytes: Seq<u8>) -> Seq<char>;

/// `String::from_utf8_lossy`: the text in the bytes; bytes that are UTF-8 read as what
/// they encode.
#[verifier::external_body]
pub(crate) fn from_utf8_lossy(bytes: &[u8]) -> (r: String)
    ensures
        r@ == lossy_text(bytes@),
        vstd::utf8::valid_utf8(bytes@) ==> r@ == vstd::utf8::decode_utf8(bytes@),
{
    String::from_utf8_lossy(bytes).into_owned()
}

/// A list of texts, quoted and in brackets.
pub uninterp spec fn quoted_list(items: Seq<Seq<char>>) -> Seq<char>;

/// `format!` with `{:?}` on a list of strings: the texts quoted and escaped, separated
/// by commas and in brackets.
#[verifier::external_body]
pub(crate) fn debug_list(items: &Vec<String>) -> (r: String)
    ensures
        r@ == quoted_list(views(items@)),
{
    format!("{items:?}")
}

// ---------- laws ----------

/// Trimming takes white space off both ends and nothing else: before and behind what
/// stays there was white space only, and what stays neither begins nor ends with any.
pub proof fn law_trim_takes_off_white_space(s: Seq<char>)
    ensures
        exists|a: Seq<char>, b: Seq<char>| #[trigger]
            framed(a, trim_of(s), b) == s && all_space(a) && all_space(b),
        trim_of(s).len() > 0 ==> !is_space(trim_of(s)[0]) && !is_space(trim_of(s).last()),
        all_space(s) <==> trim_of(s).len() == 0,
{
    let t = trim_start_of(s);
    let u = trim_of(s);
    lemma_trim(s);
    lemma_trim_start(s);
    lemma_trim_end(t);
    lemma_trim_end_spaces(t);
    let a = s.take(s.len() - t.len());
    let b = t.skip(u.len() as int);
    assert(framed(a, u, b) =~= s);
    assert forall|i: int| 0 <= i < a.len() implies is_space(#[trigger] a[i]) by {
        assert(s[i] == a[i]);
    }
    assert forall|i: int| 0 <= i < b.len() implies is_space(#[trigger] b[i]) by {
        assert(t[u.len() + i] == b[i]);
    }
    if u.len() == 0 {
        assert forall|i: int| 0 <= i < s.len() implies is_space(#[trigger] s[i]) by {
            if i < a.len() {
                assert(a[i] == s[i]);
            } else {
                assert(b[i - a.len()] == s[i]);
            }
        }
    } else {
        assert(s[a.len() as int] == u[0]);
    }
}

pub open spec fn framed(a: Seq<char>, t: Seq<char>, b: Seq<char>) -> Seq<char> {
    a + t + b
}

pub open spec fn all_space(s: Seq<char>) -> bool {
    forall|i: int| 0 <= i < s.len() ==> is_space(#[trigger] s[i])
}

proof fn lemma_trim_end_spaces(s: Seq<char>)
    ensures
        forall|i: int| trim_end_of(s).len() <= i < s.len() ==> is_space(#[trigger] s[i]),
    decreases s.len(),
{
    if s.len() > 0 && is_space(s.last()) {
        lemma_trim_end_spaces(s.drop_last());
        assert forall|i: int| trim_end_of(s).len() <= i < s.len() implies is_space(#[trigger] s[i]) by {
            if i < s.len() - 1 {
                assert(s.drop_last()[i] == s[i]);
            }
        }
    }
}

/// White space is what separates words, and no letter, figure or mark of ASCII.
pub proof fn law_white_space(c: char)
    ensures
        is_space(' ') && is_space('\n') && is_space('\t') && is_space('\r') && is_space('\u{3000}') && is_space(
            '\u{a0}',
        ),
        '!' <= c <= '~' ==> !is_space(c),
        '\u{4e00}' <= c <= '\u{9fff}' ==> !is_space(c),
{
}

/// A text is its pieces with the separator between them, and no piece has one in it.
pub proof fn law_split_is_undone_by_join(s: Seq<char>, sep: char)
    ensures
        join_of(split_of(s, sep), seq![sep]) == s,
        forall|i: int, k: int|
            0 <= i < split_of(s, sep).len() && 0 <= k < split_of(s, sep)[i].len()
                ==> #[trigger] split_of(s, sep)[i][k] != sep,
    decreases s.len(),
{
    lemma_split_pieces(s, sep);
    lemma_split_nonempty(s, sep);
    let parts = split_of(s, sep);
    if s.len() == 0 {
        assert(parts[0] =~= s);
    } else {
        let init = s.drop_last();
        law_split_is_undone_by_join(init, sep);
        lemma_split_nonempty(init, sep);
        let before = split_of(init, sep);
        if s.last() == sep {
            assert(parts.drop_last() =~= before);
            assert(join_of(parts, seq![sep]) =~= init + seq![sep] + Seq::<char>::empty());
            assert(init + seq![sep] + Seq::<char>::empty() =~= s);
        } else {
            assert(parts.drop_last() =~= before.drop_last());
            assert(parts.last() == before.last().push(s.last()));
            if before.len() == 1 {
                assert(before[0] == init);
                assert(parts[0] =~= s);
            } else {
                assert(join_of(parts, seq![sep]) =~= join_of(before, seq![sep]).push(s.last()));
                assert(init.push(s.last()) =~= s);
            }
        }
    }
}

/// Joined texts stand one behind the other with the separator between them.
pub proof fn law_join_sets_side_by_side(parts: Seq<Seq<char>>, p: Seq<char>, sep: Seq<char>)
    ensures
        join_of(Seq::<Seq<char>>::empty(), sep).len() == 0,
        join_of(seq![p], sep) == p,
        parts.len() > 0 ==> join_of(parts.push(p), sep) == join_of(parts, sep) + sep + p,
{
    assert(parts.push(p).drop_last() =~= parts);
}

/// A list holds its entries in their order, trimmed, and no empty ones.
pub proof fn law_list_holds_its_entries(parts: Seq<Seq<char>>, p: Seq<char>)
    ensures
        kept_entries(Seq::<Seq<char>>::empty()).len() == 0,
        trim_of(p).len() > 0 ==> kept_entries(parts.push(p)) == kept_entries(parts).push(trim_of(p)),
        trim_of(p).len() == 0 ==> kept_entries(parts.push(p)) == kept_entries(parts),
        forall|s: Seq<char>| #[trigger] list_of(s) == kept_entries(split_of(s, ',')),
{
    assert(parts.push(p).drop_last() =~= parts);
}

/// A text is cut only where it is too long, keeps its beginning and then shows that it
/// was cut.
pub proof fn law_cut_text_keeps_its_beginning(s: Seq<char>, n: int)
    requires
        n >= 0,
    ensures
        s.len() <= n ==> truncate_of(s, n) == s && take_of(s, n) == s,
        s.len() > n ==> begins(truncate_of(s, n), s.take(n)) && truncate_of(s, n).len() == n + 1 && truncate_of(
            s,
            n,
        ).last() == '…' && take_of(s, n) == s.take(n),
{
    reveal_strlit("…");
    if s.len() > n {
        assert(truncate_of(s, n).take(n) =~= s.take(n));
    }
}

/// A text occurs where its characters stand one after the other, and begins or ends
/// another where it occurs at that end.
pub proof fn law_occurrence(a: Seq<char>, pat: Seq<char>, b: Seq<char>)
    ensures
        includes(a + pat + b, pat),
        begins(pat + b, pat),
        ends(a + pat, pat),
        strip_prefix_of(pat + b, pat) == Some(b),
        forall|s: Seq<char>, i: int| #[trigger] occurs_at(s, pat, i) ==> s == s.take(i) + pat + s.skip(
            i + pat.len(),
        ),
        forall|s: Seq<char>| #[trigger] begins(s, pat) ==> s == pat + s.skip(pat.len() as int),
        forall|s: Seq<char>| #[trigger] ends(s, pat) ==> s == s.take(s.len() - pat.len()) + pat,
{
    let s = a + pat + b;
    assert(s.subrange(a.len() as int, (a.len() + pat.len()) as int) =~= pat);
    assert(occurs_at(s, pat, a.len() as int));
    assert((pat + b).take(pat.len() as int) =~= pat);
    assert((pat + b).skip(pat.len() as int) =~= b);
    assert((a + pat).skip((a + pat).len() - pat.len()) =~= pat);
    assert forall|s: Seq<char>, i: int| #[trigger] occurs_at(s, pat, i) implies s == s.take(i) + pat + s.skip(
        i + pat.len(),
    ) by {
        assert forall|k: int| 0 <= k < pat.len() implies s[i + k] == pat[k] by {
            assert(s.subrange(i, i + pat.len())[k] == s[i + k]);
        }
        assert(s =~= s.take(i) + pat + s.skip(i + pat.len()));
    }
    assert forall|s: Seq<char>| #[trigger] begins(s, pat) implies s == pat + s.skip(pat.len() as int) by {
        assert(s =~= s.take(pat.len() as int) + s.skip(pat.len() as int));
    }
    assert forall|s: Seq<char>| #[trigger] ends(s, pat) implies s == s.take(s.len() - pat.len()) + pat by {
        assert(s =~= s.take(s.len() - pat.len()) + s.skip(s.len() - pat.len()));
    }
}

/// The first and the last place of a character are where it stands with none of its kind
/// before, or behind, it; and there is none where it does not occur.
pub proof fn law_first_and_last_place(s: Seq<char>, c: char)
    ensures
        match find_char_of(s, c) {
            Some(i) => 0 <= i < s.len() && s[i] == c && forall|j: int| 0 <= j < i ==> s[j] != c,
            None => forall|j: int| 0 <= j < s.len() ==> s[j] != c,
        },
        match rfind_char_of(s, c) {
            Some(i) => 0 <= i < s.len() && s[i] == c && forall|j: int| i < j < s.len() ==> s[j] != c,
            None => forall|j: int| 0 <= j < s.len() ==> s[j] != c,
        },
        match split_once_of(s, c) {
            Some((x, y)) => s == x + seq![c] + y && forall|j: int| 0 <= j < x.len() ==> x[j] != c,
            None => forall|j: int| 0 <= j < s.len() ==> s[j] != c,
        },
    decreases s.len(),
{
    lemma_char_from(s, c, 0);
    if s.len() > 0 && s.last() != c {
        let init = s.drop_last();
        law_first_and_last_place(init, c);
        match rfind_char_of(init, c) {
            Some(i) => {
                assert(init[i] == s[i]);
                assert forall|j: int| i < j < s.len() implies s[j] != c by {
                    if j < init.len() {
                        assert(init[j] == s[j]);
                    }
                }
            },
            None => {
                assert forall|j: int| 0 <= j < s.len() implies s[j] != c by {
                    if j < init.len() {
                        assert(init[j] == s[j]);
                    }
                }
            },
        }
    }
    if let Some(i) = find_char_of(s, c) {
        assert(s =~= s.take(i) + seq![c] + s.skip(i + 1));
        assert forall|j: int| 0 <= j < s.take(i).len() implies s.take(i)[j] != c by {
            assert(s.take(i)[j] == s[j]);
        }
    }
}

/// What is to be taken out of a text is taken out wherever it begins, and a text without
/// it stays as it is.
pub proof fn law_taken_out_or_kept(s: Seq<char>, pat: Seq<char>)
    requires
        pat.len() > 0,
    ensures
        !includes(s, pat) ==> remove_of(s, pat) == s,
        remove_of(pat + s, pat) == remove_of(s, pat),
        remove_of(s, pat).len() <= s.len(),
    decreases s.len(),
{
    assert((pat + s).take(pat.len() as int) =~= pat);
    assert((pat + s).skip(pat.len() as int) =~= s);
    if s.len() >= pat.len() {
        if s.take(pat.len() as int) == pat {
            assert(s.subrange(0, pat.len() as int) =~= s.take(pat.len() as int));
            assert(occurs_at(s, pat, 0));
            law_taken_out_or_kept(s.skip(pat.len() as int), pat);
        } else {
            let rest = s.skip(1);
            law_taken_out_or_kept(rest, pat);
            if !includes(s, pat) {
                if includes(rest, pat) {
                    let i = choose|i: int| occurs_at(rest, pat, i);
                    assert(s.subrange(i + 1, i + 1 + pat.len()) =~= rest.subrange(i, i + pat.len()));
                    assert(occurs_at(s, pat, i + 1));
                }
                assert(seq![s[0]] + rest =~= s);
            }
        }
    }
}

/// A character is put in the place of another wherever that stands, and capitals become
/// the small letters of the same kind; nothing else changes.
pub proof fn law_characters_are_replaced_one_by_one(s: Seq<char>, from: char, to: char, i: int)
    requires
        0 <= i < s.len(),
    ensures
        replace_char_of(s, from, to).len() == s.len(),
        s[i] == from ==> replace_char_of(s, from, to)[i] == to,
        s[i] != from ==> replace_char_of(s, from, to)[i] == s[i],
        ascii_lower(s).len() == s.len(),
        'A' <= s[i] <= 'Z' ==> ascii_lower(s)[i] as u32 == s[i] as u32 + 32,
        !('A' <= s[i] <= 'Z') ==> ascii_lower(s)[i] == s[i],
{
}

/// What is listed stays in the list: views hold the texts in their order.
pub proof fn law_views_hold_the_texts(v: Seq<String>, i: int)
    requires
        0 <= i < v.len(),
    ensures
        views(v).len() == v.len(),
        views(v)[i] == v[i]@,
        opt_view(Some(v[i])) == Some(v[i]@),
        opt_view(None) is None,
{
}

/// White space taken off the end first makes no difference.
pub proof fn lemma_trim_end_first(c: Seq<char>)
    ensures
        trim_of(trim_end_of(c)) == trim_of(c),
    decreases c.len(),
{
    if c.len() > 0 && is_space(c.last()) {
        let init = c.drop_last();
        lemma_trim_end_first(init);
        lemma_trim_start_push(init, c.last());
        assert(init.push(c.last()) =~= c);
        let t = trim_start_of(init);
        if t.len() > 0 {
            assert(t.push(c.last()).drop_last() =~= t);
        } else {
            assert(trim_of(init) =~= trim_of(c));
        }
    }
}

proof fn lemma_trim_start_push(s: Seq<char>, c: char)
    requires
        is_space(c),
    ensures
        trim_start_of(s).len() > 0 ==> trim_start_of(s.push(c)) == trim_start_of(s).push(c),
        trim_start_of(s).len() == 0 ==> trim_start_of(s.push(c)).len() == 0,
    decreases s.len(),
{
    if s.len() > 0 && is_space(s[0]) {
        assert(s.push(c).skip(1) =~= s.skip(1).push(c));
        lemma_trim_start_push(s.skip(1), c);
    } else if s.len() == 0 {
        assert(s.push(c).skip(1) =~= Seq::<char>::empty());
        assert(trim_start_of(s.push(c)) == trim_start_of(s.push(c).skip(1)));
    }
}

/// What stands in a mark: a word of two characters and what follows it.
pub proof fn lemma_mark_inside(open: Seq<char>, verb: Seq<char>, c: Seq<char>)
    requires
        open.len() == 4,
        open[0] == '[',
        verb.len() == 2,
        verb[0] != '[',
        forall|i: int| 0 <= i < 2 ==> !is_space(#[trigger] verb[i]) && verb[i] != ']',
        forall|i: int| 0 <= i < c.len() ==> #[trigger] c[i] != ']',
    ensures
        trim_of(
            trim_end_matches_of(
                trim_start_matches_of(open + verb + c + seq![']'], open),
                "]"@,
            ),
        ) == verb + trim_end_of(c),
{
    reveal_strlit("]");
    let tag = open + verb + c + seq![']'];
    let one = verb + c + seq![']'];
    assert(tag.take(4) =~= open);
    assert(tag.skip(4) =~= one);
    if begins(one, open) {
        assert(one.take(4)[0] == one[0]);
    }
    assert(trim_start_matches_of(tag, open) == trim_start_matches_of(one, open));
    let two = verb + c;
    assert(one.skip(one.len() - 1) =~= "]"@);
    assert(one.take(one.len() - 1) =~= two);
    if ends(two, "]"@) {
        assert(two.skip(two.len() - 1)[0] == two.last());
        if c.len() > 0 {
            assert(two.last() == c[c.len() - 1]);
        } else {
            assert(two.last() == verb[1]);
        }
    }
    assert(trim_end_matches_of(one, "]"@) == trim_end_matches_of(two, "]"@));
    assert(two[0] == verb[0]);
    assert(!is_space(verb[0]) && !is_space(verb[1]));
    assert(trim_start_of(two) == two);
    assert(verb.last() == verb[1]);
    lemma_trim_end_concat(verb, c);
}

} // verus!
