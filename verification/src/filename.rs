//! Disambiguation counts in file names.
//!
//! A file system tells copies of one name apart by a count in parentheses at the
//! end of the stem: `Song(2).mp3`. Such a count says nothing about the audio. It
//! is taken off a source name before the file is written out, and put on only
//! where the output directory already holds the name.
//!
//! A path is a string of segments separated by `/`; its last segment is the file
//! name. A file name ends in an extension when it has a `.` that is not its
//! first character: the extension follows the last such `.`, the stem precedes
//! it.

use vstd::prelude::*;
use vstd::string::*;

verus! {

/// The decimal digits `0` to `9`.
pub open spec fn is_digit(c: char) -> bool {
    '0' <= c && c <= '9'
}

/// The position of the last `c` in `s`, or -1 where `s` holds none.
pub open spec fn last_index_of(s: Seq<char>, c: char) -> int
    decreases s.len(),
{
    if s.len() == 0 {
        -1
    } else if s.last() == c {
        s.len() - 1
    } else {
        last_index_of(s.drop_last(), c)
    }
}

/// The file name of a path: what follows its last `/`, or all of it.
pub open spec fn file_name_of(path: Seq<char>) -> Seq<char> {
    path.subrange(last_index_of(path, '/') + 1, path.len() as int)
}

/// The length of the stem of a file name.
pub open spec fn stem_len(name: Seq<char>) -> int {
    let dot = last_index_of(name, '.');
    if dot <= 0 {
        name.len() as int
    } else {
        dot
    }
}

/// The stem of a file name: the name without its extension.
pub open spec fn stem_of(name: Seq<char>) -> Seq<char> {
    name.subrange(0, stem_len(name))
}

/// What follows the stem of a file name: the `.` and the extension, or nothing.
pub open spec fn tail_of(name: Seq<char>) -> Seq<char> {
    name.subrange(stem_len(name), name.len() as int)
}

/// The extension of a file name: what follows the `.` behind its stem, or
/// `None` where nothing follows the stem.
pub open spec fn extension_of(name: Seq<char>) -> Option<Seq<char>> {
    if stem_len(name) < name.len() {
        Some(name.subrange(stem_len(name) + 1, name.len() as int))
    } else {
        None
    }
}

/// How many digits `s` ends in.
pub open spec fn trailing_digits(s: Seq<char>) -> nat
    decreases s.len(),
{
    if s.len() > 0 && is_digit(s.last()) {
        1 + trailing_digits(s.drop_last())
    } else {
        0
    }
}

/// `s` is a count in parentheses: `(`, one or more digits, `)`.
pub open spec fn is_count(s: Seq<char>) -> bool {
    &&& s.len() >= 3
    &&& s[0] == '('
    &&& s.last() == ')'
    &&& forall|i: int| 0 < i < s.len() - 1 ==> is_digit(#[trigger] s[i])
}

/// The length of the count that `stem` ends in, or 0 where it ends in none.
pub open spec fn count_len(stem: Seq<char>) -> nat {
    if stem.len() > 0 && stem.last() == ')' {
        let digits = trailing_digits(stem.drop_last());
        if digits >= 1 && stem.len() >= digits + 2 && stem[stem.len() - digits - 2] == '(' {
            digits + 2
        } else {
            0
        }
    } else {
        0
    }
}

/// Whether the stem of the file name of `path` ends in a count.
pub open spec fn has_count(path: Seq<char>) -> bool {
    count_len(stem_of(file_name_of(path))) > 0
}

/// `stem` without the count that it ends in.
pub open spec fn strip_count(stem: Seq<char>) -> Seq<char> {
    stem.subrange(0, stem.len() - count_len(stem))
}

/// The canonical file name of `path`: its file name, the count at the end of the
/// stem taken off. A name without a count is its own canonical name.
pub open spec fn without_count(path: Seq<char>) -> Seq<char> {
    let name = file_name_of(path);
    strip_count(stem_of(name)) + tail_of(name)
}

/// The character of a digit value.
pub open spec fn digit_char(d: nat) -> char {
    if d == 0 {
        '0'
    } else if d == 1 {
        '1'
    } else if d == 2 {
        '2'
    } else if d == 3 {
        '3'
    } else if d == 4 {
        '4'
    } else if d == 5 {
        '5'
    } else if d == 6 {
        '6'
    } else if d == 7 {
        '7'
    } else if d == 8 {
        '8'
    } else {
        '9'
    }
}

/// `n` in decimal, without leading zeros.
pub open spec fn decimal(n: nat) -> Seq<char>
    decreases n,
{
    if n < 10 {
        seq![digit_char(n)]
    } else {
        decimal(n / 10).push(digit_char(n % 10))
    }
}

/// `n` in parentheses.
pub open spec fn count_text(n: nat) -> Seq<char> {
    seq!['('] + decimal(n) + seq![')']
}

/// The file name of `path` with the count `n` put on the end of its stem:
/// `Song.mp3` with 2 is `Song(2).mp3`.
pub open spec fn with_count(path: Seq<char>, n: nat) -> Seq<char> {
    let name = file_name_of(path);
    stem_of(name) + count_text(n) + tail_of(name)
}

/// The name tried under the count `count`: the name as it is for 0, and the
/// name with the count for any other.
pub open spec fn candidate(name: Seq<char>, count: nat) -> Seq<char> {
    if count == 0 {
        name
    } else {
        with_count(name, count)
    }
}

/// `last_index_of` finds a `c`, and no `c` follows it.
pub proof fn lemma_last_index_of(s: Seq<char>, c: char)
    ensures
        -1 <= last_index_of(s, c) < s.len(),
        last_index_of(s, c) >= 0 ==> s[last_index_of(s, c)] == c,
        forall|j: int| last_index_of(s, c) < j < s.len() ==> s[j] != c,
    decreases s.len(),
{
    if s.len() > 0 && s.last() != c {
        let front = s.drop_last();
        lemma_last_index_of(front, c);
        assert forall|j: int| last_index_of(s, c) < j < s.len() implies s[j] != c by {
            if j < front.len() {
                assert(front[j] == s[j]);
            }
        }
    }
}

/// A position that holds `c` and is followed by no `c` is the last position of `c`.
pub proof fn lemma_last_index_is(s: Seq<char>, c: char, at: int)
    requires
        -1 <= at < s.len(),
        at >= 0 ==> s[at] == c,
        forall|j: int| at < j < s.len() ==> s[j] != c,
    ensures
        last_index_of(s, c) == at,
{
    lemma_last_index_of(s, c);
}

/// A file name holds no `/`, so it is its own file name.
pub proof fn lemma_file_name_is_bare(path: Seq<char>)
    ensures
        !file_name_of(path).contains('/'),
        file_name_of(file_name_of(path)) == file_name_of(path),
{
    lemma_last_index_of(path, '/');
    let name = file_name_of(path);
    assert(!name.contains('/')) by {
        if name.contains('/') {
            let i = choose|i: int| 0 <= i < name.len() && name[i] == '/';
            assert(path[last_index_of(path, '/') + 1 + i] == '/');
        }
    }
    lemma_bare_name(name);
}

/// A string without `/` is its own file name.
pub proof fn lemma_bare_name(name: Seq<char>)
    requires
        !name.contains('/'),
    ensures
        file_name_of(name) == name,
{
    lemma_last_index_of(name, '/');
}

/// A file name is its stem followed by its tail.
pub proof fn lemma_stem_and_tail(name: Seq<char>)
    ensures
        0 <= stem_len(name) <= name.len(),
        stem_of(name) + tail_of(name) == name,
{
    lemma_last_index_of(name, '.');
}

/// A number in decimal is one or more digits.
pub proof fn lemma_decimal_is_digits(n: nat)
    ensures
        decimal(n).len() >= 1,
        forall|i: int| 0 <= i < decimal(n).len() ==> is_digit(#[trigger] decimal(n)[i]),
    decreases n,
{
    if n >= 10 {
        lemma_decimal_is_digits(n / 10);
    }
}

/// Two numbers with the same decimal text are the same number.
pub proof fn lemma_decimal_is_injective(m: nat, n: nat)
    requires
        decimal(m) == decimal(n),
    ensures
        m == n,
    decreases m,
{
    lemma_decimal_is_digits(m / 10);
    lemma_decimal_is_digits(n / 10);
    if m < 10 && n < 10 {
        assert(decimal(m)[0] == digit_char(m));
        assert(decimal(n)[0] == digit_char(n));
    } else if m >= 10 && n >= 10 {
        let a = decimal(m / 10);
        let b = decimal(n / 10);
        assert(decimal(m) == a.push(digit_char(m % 10)));
        assert(decimal(n) == b.push(digit_char(n % 10)));
        assert(a.push(digit_char(m % 10)).drop_last() =~= a);
        assert(b.push(digit_char(n % 10)).drop_last() =~= b);
        assert(a.push(digit_char(m % 10)).last() == digit_char(m % 10));
        assert(b.push(digit_char(n % 10)).last() == digit_char(n % 10));
        assert(a == b);
        lemma_decimal_is_injective(m / 10, n / 10);
        assert(digit_char(m % 10) == digit_char(n % 10));
        assert(m % 10 == n % 10);
    } else if m < 10 {
        assert(decimal(m).len() == 1);
        assert(decimal(n).len() == decimal(n / 10).len() + 1);
    } else {
        assert(decimal(n).len() == 1);
        assert(decimal(m).len() == decimal(m / 10).len() + 1);
    }
}

/// Digits put behind a string that does not end in a digit are all the digits
/// that the result ends in.
pub proof fn lemma_trailing_digits_after(front: Seq<char>, digits: Seq<char>)
    requires
        front.len() == 0 || !is_digit(front.last()),
        forall|i: int| 0 <= i < digits.len() ==> is_digit(#[trigger] digits[i]),
    ensures
        trailing_digits(front + digits) == digits.len(),
    decreases digits.len(),
{
    if digits.len() == 0 {
        assert(front + digits =~= front);
    } else {
        assert((front + digits).last() == digits.last());
        assert((front + digits).drop_last() =~= front + digits.drop_last());
        lemma_trailing_digits_after(front, digits.drop_last());
    }
}

/// The digits that a string ends in are digits, and what stands before them is
/// none.
pub proof fn lemma_trailing_digits(s: Seq<char>)
    ensures
        trailing_digits(s) <= s.len(),
        forall|i: int| s.len() - trailing_digits(s) <= i < s.len() ==> is_digit(#[trigger] s[i]),
        trailing_digits(s) < s.len() ==> !is_digit(s[s.len() - trailing_digits(s) - 1]),
    decreases s.len(),
{
    if s.len() > 0 && is_digit(s.last()) {
        let front = s.drop_last();
        lemma_trailing_digits(front);
        assert forall|i: int| s.len() - trailing_digits(s) <= i < s.len() implies is_digit(
            #[trigger] s[i],
        ) by {
            if i < front.len() {
                assert(front[i] == s[i]);
            }
        }
    }
}

/// What `count_len` measures is a count, `(` digits `)`, and a stem that ends in
/// such a count is measured: the two say the same.
pub proof fn lemma_count_len_is_count(stem: Seq<char>)
    ensures
        count_len(stem) <= stem.len(),
        count_len(stem) > 0 ==> is_count(
            stem.subrange(stem.len() - count_len(stem), stem.len() as int),
        ),
        forall|k: int|
            0 <= k <= stem.len() && is_count(#[trigger] stem.subrange(k, stem.len() as int))
                ==> count_len(stem) == stem.len() - k,
{
    let len = stem.len() as int;
    if len > 0 && stem.last() == ')' {
        let body = stem.drop_last();
        lemma_trailing_digits(body);
        let digits = trailing_digits(body) as int;
        if count_len(stem) > 0 {
            let found = stem.subrange(len - count_len(stem), len);
            assert forall|i: int| 0 < i < found.len() - 1 implies is_digit(#[trigger] found[i]) by {
                assert(found[i] == body[len - count_len(stem) + i]);
            }
        }
        assert forall|k: int|
            0 <= k <= len && is_count(#[trigger] stem.subrange(k, len)) implies count_len(stem)
            == len - k by {
            let found = stem.subrange(k, len);
            let inner = found.subrange(1, found.len() - 1);
            assert forall|i: int| 0 <= i < inner.len() implies is_digit(#[trigger] inner[i]) by {
                assert(inner[i] == found[i + 1]);
            }
            let front = stem.subrange(0, k + 1);
            assert(front.last() == found[0]);
            assert(body =~= front + inner);
            lemma_trailing_digits_after(front, inner);
            assert(stem[len - digits - 2] == found[0]);
        }
    } else {
        assert forall|k: int|
            0 <= k <= len && is_count(#[trigger] stem.subrange(k, len)) implies count_len(stem)
            == len - k by {
            let found = stem.subrange(k, len);
            assert(found.last() == stem.last());
        }
    }
}

/// Taking the count off a stem that was given one gives the stem back.
pub proof fn lemma_strip_counted_stem(stem: Seq<char>, n: nat)
    ensures
        count_len(stem + count_text(n)) == count_text(n).len(),
        strip_count(stem + count_text(n)) == stem,
{
    let counted = stem + count_text(n);
    lemma_decimal_is_digits(n);
    let text = count_text(n);
    assert(counted.subrange(stem.len() as int, counted.len() as int) =~= text);
    lemma_count_len_is_count(counted);
}

/// A count holds neither `/` nor `.`.
proof fn lemma_count_text_chars(n: nat)
    ensures
        forall|i: int|
            0 <= i < count_text(n).len() ==> (#[trigger] count_text(n)[i]) != '/' && count_text(
                n,
            )[i] != '.',
{
    lemma_decimal_is_digits(n);
    let text = count_text(n);
    assert forall|i: int| 0 <= i < text.len() implies (#[trigger] text[i]) != '/' && text[i]
        != '.' by {
        if 0 < i < text.len() - 1 {
            assert(text[i] == decimal(n)[i - 1]);
        }
    }
}

/// A name with a count put on is a file name, its stem is the old stem with the
/// count, and its extension is the old one.
pub proof fn lemma_with_count_parts(path: Seq<char>, n: nat)
    ensures
        file_name_of(with_count(path, n)) == with_count(path, n),
        stem_of(with_count(path, n)) == stem_of(file_name_of(path)) + count_text(n),
        tail_of(with_count(path, n)) == tail_of(file_name_of(path)),
{
    let name = file_name_of(path);
    let text = count_text(n);
    let counted = with_count(path, n);
    let cut = stem_len(name);
    lemma_file_name_is_bare(path);
    lemma_count_text_chars(n);
    lemma_last_index_of(name, '.');
    lemma_stem_and_tail(name);
    assert forall|i: int| 0 <= i < counted.len() implies counted[i] == (if i < cut {
        name[i]
    } else if i < cut + text.len() {
        text[i - cut]
    } else {
        name[i - text.len()]
    }) by {}
    assert(!counted.contains('/')) by {
        if counted.contains('/') {
            let i = choose|i: int| 0 <= i < counted.len() && counted[i] == '/';
            if i < cut {
                assert(name.contains('/'));
            } else if i >= cut + text.len() {
                assert(name[i - text.len()] == '/');
                assert(name.contains('/'));
            }
        }
    }
    lemma_bare_name(counted);
    let dot = last_index_of(name, '.');
    if dot > 0 {
        lemma_last_index_is(counted, '.', dot + text.len());
    } else {
        lemma_last_index_is(counted, '.', dot);
    }
    assert(stem_of(counted) =~= stem_of(name) + text);
    assert(tail_of(counted) =~= tail_of(name));
}

/// Putting a count on a name and taking it off again gives the name back, and
/// taking the count off a counted name and putting the same count on again gives
/// the counted name back. `Song.mp3` with 2 is `Song(2).mp3`, which without its
/// count is `Song.mp3`, which with 2 is `Song(2).mp3`.
pub proof fn lemma_count_round_trip(path: Seq<char>, n: nat)
    ensures
        without_count(with_count(path, n)) == file_name_of(path),
        with_count(without_count(with_count(path, n)), n) == with_count(path, n),
{
    let name = file_name_of(path);
    lemma_with_count_parts(path, n);
    lemma_strip_counted_stem(stem_of(name), n);
    lemma_stem_and_tail(name);
    lemma_file_name_is_bare(path);
}

/// Different counts give different names.
pub proof fn lemma_with_count_is_injective(path: Seq<char>, m: nat, n: nat)
    requires
        with_count(path, m) == with_count(path, n),
    ensures
        m == n,
{
    let stem = stem_of(file_name_of(path));
    let tail = tail_of(file_name_of(path));
    let b = with_count(path, n);
    assert(b.len() == stem.len() + count_text(n).len() + tail.len());
    assert forall|i: int| 0 <= i < decimal(m).len() implies decimal(m)[i] == decimal(n)[i] by {
        assert(b[stem.len() + 1 + i] == decimal(n)[i]);
    }
    assert(decimal(m) =~= decimal(n));
    lemma_decimal_is_injective(m, n);
}

/// The names tried for a file name under different counts are different names.
pub proof fn lemma_candidate_is_injective(name: Seq<char>, m: nat, n: nat)
    requires
        file_name_of(name) == name,
        candidate(name, m) == candidate(name, n),
    ensures
        m == n,
{
    lemma_stem_and_tail(name);
    if m != 0 && n != 0 {
        lemma_with_count_is_injective(name, m, n);
    } else if m != 0 {
        assert(with_count(name, m).len() > name.len());
    } else if n != 0 {
        assert(with_count(name, n).len() > name.len());
    }
}

/// The canonical name of a path whose file name carries no count is the file
/// name itself.
pub proof fn lemma_without_count_of_plain_name(path: Seq<char>)
    requires
        !has_count(path),
    ensures
        without_count(path) == file_name_of(path),
{
    let name = file_name_of(path);
    lemma_stem_and_tail(name);
}

/// A canonical name is a file name: it holds no `/`.
pub proof fn lemma_without_count_is_bare(path: Seq<char>)
    ensures
        file_name_of(without_count(path)) == without_count(path),
{
    let name = file_name_of(path);
    let bare = without_count(path);
    lemma_file_name_is_bare(path);
    lemma_stem_and_tail(name);
    lemma_count_len_is_count(stem_of(name));
    let cut = stem_len(name) - count_len(stem_of(name));
    assert(!bare.contains('/')) by {
        if bare.contains('/') {
            let i = choose|i: int| 0 <= i < bare.len() && bare[i] == '/';
            if i < cut {
                assert(name[i] == '/');
            } else {
                assert(name[i + count_len(stem_of(name))] == '/');
            }
            assert(name.contains('/'));
        }
    }
    lemma_bare_name(bare);
}

/// Taking the count off twice gives what taking it off once gives, wherever one
/// pass leaves no count behind. A name with counts behind one another, such as
/// `Song(1)(2).mp3`, loses one count with each pass.
pub proof fn lemma_without_count_is_idempotent(path: Seq<char>)
    requires
        !has_count(without_count(path)),
    ensures
        without_count(without_count(path)) == without_count(path),
{
    lemma_without_count_is_bare(path);
    lemma_without_count_of_plain_name(without_count(path));
}

/// The characters of a string.
pub fn chars_of(text: &str) -> (chars: Vec<char>)
    ensures
        chars@ == text@,
{
    let mut chars: Vec<char> = Vec::new();
    for c in it: text.chars()
        invariant
            it.seq() == text@,
            chars@ == text@.subrange(0, it.index() as int),
    {
        chars.push(c);
    }
    chars
}

/// The position of the last `c` among `chars[from..]`, counted from `from`.
fn last_position(chars: &Vec<char>, from: usize, c: char) -> (found: Option<usize>)
    requires
        from <= chars.len(),
    ensures
        match found {
            Some(at) => at == last_index_of(chars@.subrange(from as int, chars.len() as int), c),
            None => last_index_of(chars@.subrange(from as int, chars.len() as int), c) == -1,
        },
{
    let ghost part = chars@.subrange(from as int, chars.len() as int);
    let mut i: usize = chars.len();
    assert(part.subrange(0, part.len() as int) =~= part);
    while i > from
        invariant
            from <= i <= chars.len(),
            part == chars@.subrange(from as int, chars.len() as int),
            last_index_of(part, c) == last_index_of(part.subrange(0, i - from), c),
        decreases i,
    {
        let ghost front = part.subrange(0, i - from);
        if chars[i - 1] == c {
            return Some(i - 1 - from);
        }
        assert(front.drop_last() =~= part.subrange(0, i - 1 - from));
        i -= 1;
    }
    None
}

/// Where the file name of a path starts.
fn name_start(chars: &Vec<char>) -> (start: usize)
    ensures
        start == last_index_of(chars@, '/') + 1,
        start <= chars.len(),
        file_name_of(chars@) == chars@.subrange(start as int, chars.len() as int),
{
    proof {
        assert(chars@.subrange(0, chars.len() as int) =~= chars@);
        lemma_last_index_of(chars@, '/');
    }
    match last_position(chars, 0, '/') {
        Some(at) => at + 1,
        None => 0,
    }
}

/// Where the stem of the file name `chars[start..]` ends.
fn stem_end_of(chars: &Vec<char>, start: usize) -> (stem_end: usize)
    requires
        start <= chars.len(),
    ensures
        start <= stem_end <= chars.len(),
        stem_end == start + stem_len(chars@.subrange(start as int, chars.len() as int)),
        stem_of(chars@.subrange(start as int, chars.len() as int)) == chars@.subrange(
            start as int,
            stem_end as int,
        ),
        tail_of(chars@.subrange(start as int, chars.len() as int)) == chars@.subrange(
            stem_end as int,
            chars.len() as int,
        ),
{
    let ghost name = chars@.subrange(start as int, chars.len() as int);
    proof {
        lemma_last_index_of(name, '.');
    }
    let stem_end: usize = match last_position(chars, start, '.') {
        Some(dot) => if dot == 0 {
            chars.len()
        } else {
            start + dot
        },
        None => chars.len(),
    };
    stem_end
}

/// The length of the count that the stem `chars[start..stem_end]` ends in.
fn count_len_of(chars: &Vec<char>, start: usize, stem_end: usize) -> (count: usize)
    requires
        start <= stem_end <= chars.len(),
    ensures
        count == count_len(chars@.subrange(start as int, stem_end as int)),
        count <= stem_end - start,
{
    let ghost stem = chars@.subrange(start as int, stem_end as int);
    if stem_end == start || chars[stem_end - 1] != ')' {
        return 0;
    }
    let ghost body = stem.drop_last();
    let mut digits: usize = 0;
    assert(body.subrange(0, body.len() as int) =~= body);
    while stem_end - 1 - digits > start && is_digit_char(chars[stem_end - 2 - digits])
        invariant
            start < stem_end <= chars.len(),
            digits <= stem_end - 1 - start,
            stem == chars@.subrange(start as int, stem_end as int),
            body == stem.drop_last(),
            trailing_digits(body) == digits + trailing_digits(
                body.subrange(0, body.len() - digits),
            ),
        decreases stem_end - digits,
    {
        let ghost front = body.subrange(0, body.len() - digits);
        assert(front.drop_last() =~= body.subrange(0, body.len() - digits - 1));
        digits += 1;
    }
    if digits >= 1 && digits < stem_end - 1 - start && chars[stem_end - digits - 2] == '(' {
        digits + 2
    } else {
        0
    }
}

/// Whether `c` is one of the digits `0` to `9`.
fn is_digit_char(c: char) -> (digit: bool)
    ensures
        digit == is_digit(c),
{
    '0' <= c && c <= '9'
}

/// The text of one digit.
fn digit_text(d: u64) -> (text: &'static str)
    requires
        d < 10,
    ensures
        text@ == seq![digit_char(d as nat)],
{
    proof {
        reveal_strlit("0");
        reveal_strlit("1");
        reveal_strlit("2");
        reveal_strlit("3");
        reveal_strlit("4");
        reveal_strlit("5");
        reveal_strlit("6");
        reveal_strlit("7");
        reveal_strlit("8");
        reveal_strlit("9");
    }
    let text = if d == 0 {
        "0"
    } else if d == 1 {
        "1"
    } else if d == 2 {
        "2"
    } else if d == 3 {
        "3"
    } else if d == 4 {
        "4"
    } else if d == 5 {
        "5"
    } else if d == 6 {
        "6"
    } else if d == 7 {
        "7"
    } else if d == 8 {
        "8"
    } else {
        "9"
    };
    text
}

/// `n` in decimal, without leading zeros.
pub fn decimal_string(n: u64) -> (text: String)
    ensures
        text@ == decimal(n as nat),
    decreases n,
{
    if n < 10 {
        digit_text(n).to_owned()
    } else {
        let mut text = decimal_string(n / 10);
        text.append(digit_text(n % 10));
        text
    }
}

/// The file name of a path: what follows its last `/`.
pub fn file_name(file_path: &str) -> (name: String)
    ensures
        name@ == file_name_of(file_path@),
{
    let chars = chars_of(file_path);
    let start = name_start(&chars);
    file_path.substring_char(start, chars.len()).to_owned()
}

/// The extension of the file name of a path, where it has one.
pub fn extension(file_path: &str) -> (ext: Option<String>)
    ensures
        ext is Some <==> extension_of(file_name_of(file_path@)) is Some,
        ext matches Some(e) ==> e@ == extension_of(file_name_of(file_path@))->0,
{
    let chars = chars_of(file_path);
    let start = name_start(&chars);
    let stem_end = stem_end_of(&chars, start);
    if stem_end < chars.len() {
        Some(file_path.substring_char(stem_end + 1, chars.len()).to_owned())
    } else {
        None
    }
}

/// The stem of the file name of a path, without the count that it may end in.
/// This is the title of a track whose file carries none.
pub fn stem_without_count(file_path: &str) -> (stem: String)
    ensures
        stem@ == strip_count(stem_of(file_name_of(file_path@))),
{
    let chars = chars_of(file_path);
    let start = name_start(&chars);
    let stem_end = stem_end_of(&chars, start);
    let count = count_len_of(&chars, start, stem_end);
    file_path.substring_char(start, stem_end - count).to_owned()
}

/// The canonical file name of a path: its file name without the count that the
/// stem may end in. `dir/Song(2).mp3` gives `Song.mp3`; a name that carries no
/// count comes back as it is.
pub fn get_file_name_without_count(file_path: &str) -> (name: String)
    ensures
        name@ == without_count(file_path@),
{
    let chars = chars_of(file_path);
    let start = name_start(&chars);
    let stem_end = stem_end_of(&chars, start);
    let count = count_len_of(&chars, start, stem_end);
    let mut name = file_path.substring_char(start, stem_end - count).to_owned();
    name.append(file_path.substring_char(stem_end, chars.len()));
    name
}

/// The file name of a path with `count` in parentheses put on the end of its
/// stem: `Song.mp3` with 1 gives `Song(1).mp3`, `Song` with 12 gives `Song(12)`.
pub fn set_file_name_count(file_name: &str, count: u64) -> (name: String)
    ensures
        name@ == with_count(file_name@, count as nat),
{
    let chars = chars_of(file_name);
    let start = name_start(&chars);
    let stem_end = stem_end_of(&chars, start);
    let digits = decimal_string(count);
    let mut name = file_name.substring_char(start, stem_end).to_owned();
    name.append("(");
    name.append(digits.as_str());
    name.append(")");
    name.append(file_name.substring_char(stem_end, chars.len()));
    proof {
        reveal_strlit("(");
        reveal_strlit(")");
    }
    name
}

} // verus!
