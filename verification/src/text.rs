//! Character-level helpers for the labels and messages the editor shows.
use vstd::prelude::*;

verus! {

/// Appends one character to a string.
pub assume_specification[ String::push ](string: &mut String, ch: char)
    ensures
        final(string)@ == old(string)@.push(ch),
;

/// The characters of `s`, one by one.
pub fn chars_of(s: &str) -> (chars: Vec<char>)
    ensures
        chars@ == s@,
{
    let n = s.unicode_len();
    let mut chars: Vec<char> = Vec::new();
    let mut i: usize = 0;
    while i < n
        invariant
            n == s@.len(),
            i <= n,
            chars@ == s@.subrange(0, i as int),
        decreases n - i,
    {
        chars.push(s.get_char(i));
        i = i + 1;
    }
    chars
}

/// A string holding exactly the characters `chars`.
pub fn string_of(chars: &Vec<char>) -> (string: String)
    ensures
        string@ == chars@,
{
    let mut string = String::new();
    let mut i: usize = 0;
    while i < chars.len()
        invariant
            i <= chars@.len(),
            string@ == chars@.subrange(0, i as int),
        decreases chars.len() - i,
    {
        string.push(chars[i]);
        i = i + 1;
    }
    string
}

/// Whether two strings hold the same characters.
pub fn str_equal(a: &str, b: &str) -> (equal: bool)
    ensures
        equal == (a@ == b@),
{
    let left = chars_of(a);
    let right = chars_of(b);
    if left.len() != right.len() {
        return false;
    }
    let mut i: usize = 0;
    while i < left.len()
        invariant
            left@ == a@,
            right@ == b@,
            left@.len() == right@.len(),
            i <= left@.len(),
            forall|j: int| 0 <= j < i ==> left@[j] == right@[j],
        decreases left.len() - i,
    {
        if left[i] != right[i] {
            return false;
        }
        i = i + 1;
    }
    proof {
        assert(left@ =~= right@);
    }
    true
}

/// ASCII upper-case letters in lower case, every other character unchanged.
pub open spec fn lower_char(c: char) -> char {
    if 'A' <= c <= 'Z' {
        ((c as u32) + 32) as char
    } else {
        c
    }
}

pub open spec fn lower_seq(s: Seq<char>) -> Seq<char> {
    s.map_values(|c: char| lower_char(c))
}

pub fn to_ascii_lower_char(c: char) -> (lower: char)
    ensures
        lower == lower_char(c),
{
    if 'A' <= c && c <= 'Z' {
        let code = (c as u8) + 32;
        code as char
    } else {
        c
    }
}

/// `s` with its ASCII letters in lower case.
pub fn to_ascii_lowercase(s: &str) -> (lower: String)
    ensures
        lower@ == lower_seq(s@),
{
    let chars = chars_of(s);
    let mut lower = String::new();
    let mut i: usize = 0;
    while i < chars.len()
        invariant
            chars@ == s@,
            i <= chars@.len(),
            lower@ == lower_seq(s@.subrange(0, i as int)),
        decreases chars.len() - i,
    {
        lower.push(to_ascii_lower_char(chars[i]));
        proof {
            assert(lower_seq(s@.subrange(0, i + 1)) =~= lower_seq(s@.subrange(0, i as int)).push(
                lower_char(s@[i as int]),
            ));
        }
        i = i + 1;
    }
    proof {
        assert(s@.subrange(0, s@.len() as int) =~= s@);
    }
    lower
}

/// Whether `needle` occurs in `haystack` starting at position `at`.
pub open spec fn occurs_at(haystack: Seq<char>, needle: Seq<char>, at: int) -> bool {
    0 <= at && at + needle.len() <= haystack.len() && haystack.subrange(at, at + needle.len())
        == needle
}

/// Whether `needle` occurs anywhere in `haystack`.
pub open spec fn has_substring(haystack: Seq<char>, needle: Seq<char>) -> bool {
    exists|at: int| occurs_at(haystack, needle, at)
}

pub fn contains_str(haystack: &str, needle: &str) -> (found: bool)
    ensures
        found == has_substring(haystack@, needle@),
{
    let h = chars_of(haystack);
    let n = chars_of(needle);
    if n.len() > h.len() {
        proof {
            assert forall|at: int| !occurs_at(haystack@, needle@, at) by {}
        }
        return false;
    }
    let last = h.len() - n.len();
    let mut at: usize = 0;
    while at <= last
        invariant
            h@ == haystack@,
            n@ == needle@,
            last == h@.len() - n@.len(),
            n@.len() <= h@.len(),
            forall|k: int| 0 <= k < at ==> !occurs_at(haystack@, needle@, k),
        decreases last + 1 - at,
    {
        let mut j: usize = 0;
        let mut matched = true;
        while j < n.len()
            invariant
                h@ == haystack@,
                n@ == needle@,
                at <= last,
                last == h@.len() - n@.len(),
                n@.len() <= h@.len(),
                j <= n@.len(),
                matched ==> forall|k: int| 0 <= k < j ==> h@[at + k] == n@[k],
                !matched ==> !occurs_at(haystack@, needle@, at as int),
            decreases n.len() - j,
        {
            assert(at + j < h.len());
            if h[at + j] != n[j] {
                matched = false;
                proof {
                    let window = haystack@.subrange(at as int, at + needle@.len());
                    assert(window[j as int] == h@[at + j]);
                }
            }
            j = j + 1;
        }
        if matched {
            proof {
                assert(haystack@.subrange(at as int, at + needle@.len()) =~= needle@);
                assert(occurs_at(haystack@, needle@, at as int));
            }
            return true;
        }
        if at == last {
            proof {
                assert forall|k: int| !occurs_at(haystack@, needle@, k) by {
                    if occurs_at(haystack@, needle@, k) {
                        assert(k <= last);
                    }
                }
            }
            return false;
        }
        at = at + 1;
    }
    false
}

/// The decimal digit character for `d`.
pub open spec fn digit_char(d: int) -> char {
    (d + 48) as char
}

/// The decimal representation of `n`, without leading zeros.
pub open spec fn decimal(n: nat) -> Seq<char>
    decreases n,
{
    if n < 10 {
        seq![digit_char(n as int)]
    } else {
        decimal(n / 10).push(digit_char((n % 10) as int))
    }
}

/// The decimal digits of `value`.
pub fn decimal_digits(value: usize) -> (digits: Vec<char>)
    ensures
        digits@ == decimal(value as nat),
    decreases value,
{
    let last = ((value % 10) as u8 + 48) as char;
    if value < 10 {
        vec![last]
    } else {
        let mut digits = decimal_digits(value / 10);
        digits.push(last);
        digits
    }
}

/// `digits` with a comma before every group of three digits counted from the right.
pub open spec fn group_thousands(digits: Seq<char>) -> Seq<char>
    decreases digits.len(),
{
    if digits.len() <= 3 {
        digits
    } else {
        group_thousands(digits.subrange(0, digits.len() - 3)) + seq![','] + digits.subrange(
            digits.len() - 3,
            digits.len() as int,
        )
    }
}

fn group_chars(digits: &Vec<char>, len: usize) -> (grouped: Vec<char>)
    requires
        len <= digits@.len(),
    ensures
        grouped@ == group_thousands(digits@.subrange(0, len as int)),
    decreases len,
{
    if len <= 3 {
        let mut out: Vec<char> = Vec::new();
        let mut i: usize = 0;
        while i < len
            invariant
                len <= digits@.len(),
                i <= len,
                out@ == digits@.subrange(0, i as int),
            decreases len - i,
        {
            out.push(digits[i]);
            i = i + 1;
        }
        out
    } else {
        let mut out = group_chars(digits, len - 3);
        out.push(',');
        let ghost prefix = out@;
        let mut i: usize = len - 3;
        while i < len
            invariant
                len <= digits@.len(),
                3 < len,
                len - 3 <= i <= len,
                out@ == prefix + digits@.subrange(len - 3, i as int),
            decreases len - i,
        {
            out.push(digits[i]);
            proof {
                assert(digits@.subrange(len - 3, i + 1) =~= digits@.subrange(len - 3, i as int).push(
                    digits@[i as int],
                ));
            }
            i = i + 1;
        }
        proof {
            let d = digits@.subrange(0, len as int);
            assert(d.subrange(0, d.len() - 3) =~= digits@.subrange(0, len - 3));
            assert(d.subrange(d.len() - 3, d.len() as int) =~= digits@.subrange(len - 3, len as int));
        }
        out
    }
}

/// The characters of `text` other than commas.
pub open spec fn without_commas(text: Seq<char>) -> Seq<char> {
    text.filter(|c: char| c != ',')
}

/// Grouping adds only commas: taking them out gives the digits back.
pub proof fn lemma_grouping_keeps_the_digits(digits: Seq<char>)
    requires
        !digits.contains(','),
    ensures
        without_commas(group_thousands(digits)) == digits,
    decreases digits.len(),
{
    if digits.len() <= 3 {
        lemma_filter_keeps_all(digits);
    } else {
        let head = digits.subrange(0, digits.len() - 3);
        let tail = digits.subrange(digits.len() - 3, digits.len() as int);
        assert(!head.contains(',')) by {
            if head.contains(',') {
                let k = choose|k: int| 0 <= k < head.len() && head[k] == ',';
                assert(digits[k] == ',');
            }
        }
        assert(!tail.contains(',')) by {
            if tail.contains(',') {
                let k = choose|k: int| 0 <= k < tail.len() && tail[k] == ',';
                assert(digits[digits.len() - 3 + k] == ',');
            }
        }
        lemma_grouping_keeps_the_digits(head);
        lemma_filter_keeps_all(tail);
        let pred = |c: char| c != ',';
        Seq::filter_distributes_over_add(group_thousands(head) + seq![','], tail, pred);
        Seq::filter_distributes_over_add(group_thousands(head), seq![','], pred);
        reveal(Seq::filter);
        assert(seq![','].filter(pred) =~= Seq::<char>::empty()) by {
            assert(seq![','].drop_last() =~= Seq::<char>::empty());
            assert(Seq::<char>::empty().filter(pred) =~= Seq::<char>::empty());
        }
        assert(head + tail =~= digits);
        assert(group_thousands(digits) == group_thousands(head) + seq![','] + tail);
    }
}

/// The decimal representation of a number is made of digits only.
pub proof fn lemma_decimal_is_digits(n: nat)
    ensures
        forall|k: int| 0 <= k < decimal(n).len() ==> '0' <= #[trigger] decimal(n)[k] <= '9',
        !decimal(n).contains(','),
    decreases n,
{
    if n >= 10 {
        lemma_decimal_is_digits(n / 10);
        assert forall|k: int| 0 <= k < decimal(n).len() implies '0' <= #[trigger] decimal(n)[k] <= '9' by {
            if k < decimal(n / 10).len() {
                assert(decimal(n)[k] == decimal(n / 10)[k]);
            }
        }
    }
    if decimal(n).contains(',') {
        let k = choose|k: int| 0 <= k < decimal(n).len() && decimal(n)[k] == ',';
        assert('0' <= decimal(n)[k] <= '9');
    }
}

/// A grouped count reads as the count once its commas are taken out.
pub proof fn lemma_grouped_count_keeps_its_digits(value: nat)
    ensures
        without_commas(group_thousands(decimal(value))) == decimal(value),
{
    lemma_decimal_is_digits(value);
    lemma_grouping_keeps_the_digits(decimal(value));
}

proof fn lemma_filter_keeps_all(text: Seq<char>)
    requires
        !text.contains(','),
    ensures
        text.filter(|c: char| c != ',') == text,
    decreases text.len(),
{
    reveal(Seq::filter);
    if text.len() > 0 {
        let rest = text.drop_last();
        assert(!rest.contains(',')) by {
            if rest.contains(',') {
                let k = choose|k: int| 0 <= k < rest.len() && rest[k] == ',';
                assert(text[k] == ',');
            }
        }
        lemma_filter_keeps_all(rest);
        assert(text.last() != ',') by {
            assert(text[text.len() - 1] == text.last());
        }
        assert(rest.push(text.last()) =~= text);
    }
}

/// `value` in decimal with its digits grouped in threes by commas, such as `1,234,567`.
pub fn grouped(value: usize) -> (text: String)
    ensures
        text@ == group_thousands(decimal(value as nat)),
{
    let digits = decimal_digits(value);
    let grouped = group_chars(&digits, digits.len());
    proof {
        assert(digits@.subrange(0, digits@.len() as int) =~= digits@);
    }
    string_of(&grouped)
}

/// The horizontal ellipsis that marks where a shortened text was cut.
pub const ELLIPSIS: char = '\u{2026}';

/// `path` when it has at most `max` characters, otherwise an ellipsis followed by the last
/// `max - 1` characters, so the result never exceeds `max` characters (or one, when `max` is zero).
pub open spec fn spec_shorten_path(path: Seq<char>, max: int) -> Seq<char> {
    if path.len() <= max {
        path
    } else {
        let kept = if max >= 1 {
            max - 1
        } else {
            0
        };
        seq![ELLIPSIS] + path.subrange(path.len() - kept, path.len() as int)
    }
}

/// A shortened path fits in `max` characters (one when `max` is zero) and ends with the tail of
/// the path.
pub proof fn lemma_shortened_path_fits(path: Seq<char>, max: int)
    requires
        max >= 0,
    ensures
        spec_shorten_path(path, max).len() <= if max >= 1 {
            max
        } else {
            1
        },
        path.len() <= max ==> spec_shorten_path(path, max) == path,
        path.len() > max ==> spec_shorten_path(path, max)[0] == ELLIPSIS,
        path.len() > max ==> spec_shorten_path(path, max).drop_first() == path.subrange(
            path.len() - (spec_shorten_path(path, max).len() - 1),
            path.len() as int,
        ),
{
    if path.len() > max {
        let shortened = spec_shorten_path(path, max);
        let kept = if max >= 1 { max - 1 } else { 0 };
        assert(shortened.drop_first() =~= path.subrange(path.len() - kept, path.len() as int));
    }
}

pub fn shorten_path(path: &str, max: usize) -> (shortened: String)
    ensures
        shortened@ == spec_shorten_path(path@, max as int),
{
    let chars = chars_of(path);
    let count = chars.len();
    if count <= max {
        return string_of(&chars);
    }
    let kept = max.saturating_sub(1);
    let mut out: Vec<char> = Vec::new();
    out.push(ELLIPSIS);
    let mut i: usize = count - kept;
    while i < count
        invariant
            chars@ == path@,
            count == chars@.len(),
            kept < count,
            count - kept <= i <= count,
            out@ == seq![ELLIPSIS] + path@.subrange(count - kept, i as int),
        decreases count - i,
    {
        out.push(chars[i]);
        proof {
            assert(path@.subrange(count - kept, i + 1) =~= path@.subrange(count - kept, i as int).push(
                path@[i as int],
            ));
        }
        i = i + 1;
    }
    string_of(&out)
}

/// The strings of `lines` joined by `separator`.
pub open spec fn join_with(lines: Seq<Seq<char>>, separator: Seq<char>) -> Seq<char>
    decreases lines.len(),
{
    if lines.len() == 0 {
        seq![]
    } else if lines.len() == 1 {
        lines[0]
    } else {
        join_with(lines.drop_last(), separator) + separator + lines.last()
    }
}

pub open spec fn views_of(strings: Seq<String>) -> Seq<Seq<char>> {
    strings.map_values(|s: String| s@)
}

/// The pieces of `text` between newlines, as `str::split('\n')` gives them: one more piece
/// than there are newlines, empty pieces included.
pub open spec fn split_lines(text: Seq<char>) -> Seq<Seq<char>>
    decreases text.len(),
{
    if text.len() == 0 {
        seq![seq![]]
    } else {
        let front = split_lines(text.drop_last());
        if text.last() == '\n' {
            front.push(seq![])
        } else {
            front.update(front.len() - 1, front.last().push(text.last()))
        }
    }
}

proof fn lemma_split_lines_nonempty(text: Seq<char>)
    ensures
        split_lines(text).len() >= 1,
    decreases text.len(),
{
    if text.len() > 0 {
        lemma_split_lines_nonempty(text.drop_last());
    }
}

proof fn lemma_split_after_newline(front: Seq<char>, line: Seq<char>)
    requires
        !line.contains('\n'),
    ensures
        split_lines(front + seq!['\n'] + line) == split_lines(front).push(line),
    decreases line.len(),
{
    let text = front + seq!['\n'] + line;
    if line.len() == 0 {
        assert(text.drop_last() =~= front);
        assert(text.last() == '\n');
        assert(line =~= seq![]);
    } else {
        let shorter = line.drop_last();
        assert(!shorter.contains('\n')) by {
            if shorter.contains('\n') {
                let k = choose|k: int| 0 <= k < shorter.len() && shorter[k] == '\n';
                assert(line[k] == '\n');
            }
        }
        lemma_split_after_newline(front, shorter);
        assert(text.drop_last() =~= front + seq!['\n'] + shorter);
        assert(text.last() == line.last());
        assert(line.last() != '\n') by {
            assert(line[line.len() - 1] == line.last());
        }
        assert(shorter.push(line.last()) =~= line);
        assert(split_lines(front).push(shorter).update(
            split_lines(front).len() as int,
            shorter.push(line.last()),
        ) =~= split_lines(front).push(line));
    }
}

proof fn lemma_split_single_line(line: Seq<char>)
    requires
        !line.contains('\n'),
    ensures
        split_lines(line) == seq![line],
    decreases line.len(),
{
    if line.len() > 0 {
        let shorter = line.drop_last();
        assert(!shorter.contains('\n')) by {
            if shorter.contains('\n') {
                let k = choose|k: int| 0 <= k < shorter.len() && shorter[k] == '\n';
                assert(line[k] == '\n');
            }
        }
        lemma_split_single_line(shorter);
        assert(line.last() != '\n') by {
            assert(line[line.len() - 1] == line.last());
        }
        assert(shorter.push(line.last()) =~= line);
        assert(seq![shorter].update(0, shorter.push(line.last())) =~= seq![line]);
    } else {
        assert(line =~= seq![]);
    }
}

/// Lines joined by newlines split back into the same lines, when there is at least one and none
/// holds a newline itself.
pub proof fn lemma_split_joined_lines(lines: Seq<Seq<char>>)
    requires
        lines.len() > 0,
        forall|i: int| 0 <= i < lines.len() ==> !(#[trigger] lines[i]).contains('\n'),
    ensures
        split_lines(join_with(lines, seq!['\n'])) == lines,
    decreases lines.len(),
{
    if lines.len() == 1 {
        lemma_split_single_line(lines[0]);
        assert(seq![lines[0]] =~= lines);
    } else {
        let front = lines.drop_last();
        assert forall|i: int| 0 <= i < front.len() implies !(#[trigger] front[i]).contains('\n') by {
            assert(front[i] == lines[i]);
        }
        lemma_split_joined_lines(front);
        assert(!lines.last().contains('\n')) by {
            assert(lines[lines.len() - 1] == lines.last());
        }
        lemma_split_after_newline(join_with(front, seq!['\n']), lines.last());
        assert(front.push(lines.last()) =~= lines);
    }
}

/// Joining one more line adds the separator (unless it is the first line) and the line.
pub proof fn lemma_join_take_step(lines: Seq<Seq<char>>, separator: Seq<char>, n: int)
    requires
        0 <= n < lines.len(),
    ensures
        join_with(lines.take(n + 1), separator) == join_with(lines.take(n), separator) + (if n > 0 {
            separator
        } else {
            Seq::<char>::empty()
        }) + lines[n],
{
    let longer = lines.take(n + 1);
    assert(longer.drop_last() =~= lines.take(n));
    assert(longer.last() == lines[n]);
    if n == 0 {
        assert(longer.len() == 1);
        assert(join_with(lines.take(0), separator) =~= Seq::<char>::empty());
        assert(Seq::<char>::empty() + Seq::<char>::empty() + lines[0] =~= lines[0]);
    }
}

/// The strings of `lines`, one per line.
pub fn join_lines(lines: &Vec<String>) -> (text: String)
    ensures
        text@ == join_with(views_of(lines@), seq!['\n']),
{
    let mut text = String::new();
    let mut i: usize = 0;
    while i < lines.len()
        invariant
            i <= lines@.len(),
            text@ == join_with(views_of(lines@.subrange(0, i as int)), seq!['\n']),
        decreases lines.len() - i,
    {
        let ghost before = views_of(lines@.subrange(0, i as int));
        if i > 0 {
            text.push('\n');
        }
        text.append(lines[i].as_str());
        proof {
            let after = views_of(lines@.subrange(0, i + 1));
            assert(after.drop_last() =~= before);
            assert(after.last() == lines@[i as int]@);
            if i == 0 {
                assert(after.len() == 1);
            }
        }
        i = i + 1;
    }
    proof {
        assert(lines@.subrange(0, lines@.len() as int) =~= lines@);
    }
    text
}

/// Lexicographic order on character sequences: a proper prefix comes first.
pub open spec fn text_less(a: Seq<char>, b: Seq<char>) -> bool
    decreases a.len(),
{
    if a.len() == 0 {
        b.len() > 0
    } else if b.len() == 0 {
        false
    } else if a[0] != b[0] {
        (a[0] as int) < (b[0] as int)
    } else {
        text_less(a.drop_first(), b.drop_first())
    }
}

/// Text order is transitive.
pub proof fn lemma_text_less_transitive(a: Seq<char>, b: Seq<char>, c: Seq<char>)
    requires
        text_less(a, b),
        text_less(b, c),
    ensures
        text_less(a, c),
    decreases a.len(),
{
    if a.len() > 0 && b.len() > 0 && c.len() > 0 && a[0] == b[0] && b[0] == c[0] {
        lemma_text_less_transitive(a.drop_first(), b.drop_first(), c.drop_first());
    }
}

/// No text comes before itself.
pub proof fn lemma_text_less_irreflexive(a: Seq<char>)
    ensures
        !text_less(a, a),
    decreases a.len(),
{
    if a.len() > 0 {
        lemma_text_less_irreflexive(a.drop_first());
    }
}

/// Of two different texts exactly one comes first.
pub proof fn lemma_text_less_total(a: Seq<char>, b: Seq<char>)
    ensures
        a == b || text_less(a, b) || text_less(b, a),
        !(text_less(a, b) && text_less(b, a)),
    decreases a.len(),
{
    if a.len() > 0 && b.len() > 0 {
        lemma_text_less_total(a.drop_first(), b.drop_first());
        if a[0] == b[0] && a.drop_first() == b.drop_first() {
            assert(a =~= b) by {
                assert forall|k: int| 0 <= k < a.len() implies a[k] == b[k] by {
                    if k > 0 {
                        assert(a[k] == a.drop_first()[k - 1]);
                        assert(b[k] == b.drop_first()[k - 1]);
                    }
                }
            }
        }
    } else if a.len() == 0 && b.len() == 0 {
        assert(a =~= b);
    }
}

/// Whether `a` comes before `b` in lexicographic order of their characters.
pub fn str_less(a: &str, b: &str) -> (less: bool)
    ensures
        less == text_less(a@, b@),
{
    let left = chars_of(a);
    let right = chars_of(b);
    proof {
        assert(a@.skip(0) =~= a@);
        assert(b@.skip(0) =~= b@);
    }
    let mut i: usize = 0;
    while i < left.len() && i < right.len()
        invariant
            left@ == a@,
            right@ == b@,
            i <= left@.len(),
            i <= right@.len(),
            text_less(a@, b@) == text_less(a@.skip(i as int), b@.skip(i as int)),
        decreases left.len() - i,
    {
        let x = left[i];
        let y = right[i];
        proof {
            assert(a@.skip(i as int)[0] == x);
            assert(b@.skip(i as int)[0] == y);
            assert(a@.skip(i as int).drop_first() =~= a@.skip(i + 1));
            assert(b@.skip(i as int).drop_first() =~= b@.skip(i + 1));
        }
        if x != y {
            return x < y;
        }
        i = i + 1;
    }
    proof {
        if i == left@.len() {
            assert(a@.skip(i as int).len() == 0);
        } else {
            assert(b@.skip(i as int).len() == 0);
        }
    }
    i == left.len() && i < right.len()
}

} // verus!
