use vstd::prelude::*;
use vstd::utf8::*;

verus! {

/// `String::push` appends one character at the end.
pub assume_specification[ String::push ](string: &mut String, ch: char)
    ensures
        final(string)@ == old(string)@.push(ch),
;

/// The characters of `text`, in order.
pub fn chars_of(text: &str) -> (chars: Vec<char>)
    ensures
        chars@ == text@,
{
    let mut chars: Vec<char> = Vec::new();
    for ch in it: text.chars()
        invariant
            it.seq() == text@,
            chars@ == text@.take(it.index() as int),
    {
        chars.push(ch);
    }
    assert(text@.take(text@.len() as int) =~= text@);
    chars
}

/// The characters at positions `from..to` as a string.
pub fn string_of(chars: &Vec<char>, from: usize, to: usize) -> (text: String)
    requires
        from <= to <= chars.len(),
    ensures
        text@ == chars@.subrange(from as int, to as int),
{
    let mut text = String::new();
    let mut at: usize = from;
    while at < to
        invariant
            from <= at <= to <= chars.len(),
            text@ == chars@.subrange(from as int, at as int),
        decreases to - at,
    {
        text.push(chars[at]);
        at = at + 1;
    }
    text
}

/// Whether two strings hold the same characters.
pub fn same_text(a: &str, b: &str) -> (same: bool)
    ensures
        same == (a@ == b@),
{
    let left = chars_of(a);
    let right = chars_of(b);
    if left.len() != right.len() {
        return false;
    }
    let mut at: usize = 0;
    while at < left.len()
        invariant
            at <= left.len() == right.len(),
            forall|i: int| 0 <= i < at ==> left@[i] == right@[i],
            left@ == a@,
            right@ == b@,
        decreases left.len() - at,
    {
        if left[at] != right[at] {
            return false;
        }
        at = at + 1;
    }
    assert(left@ =~= right@);
    true
}


/// The views of a list of strings.
pub open spec fn texts(list: Seq<String>) -> Seq<Seq<char>> {
    Seq::new(list.len(), |i: int| list[i]@)
}

/// The view of an optional string.
pub open spec fn optional(value: Option<String>) -> Option<Seq<char>> {
    match value {
        Some(value) => Some(value@),
        None => None,
    }
}

/// The view of an optional string slice.
pub open spec fn optional_slice(value: Option<&str>) -> Option<Seq<char>> {
    match value {
        Some(value) => Some(value@),
        None => None,
    }
}

/// A slice of an optional string.
pub fn as_deref(value: &Option<String>) -> (slice: Option<&str>)
    ensures
        optional_slice(slice) == optional(*value),
{
    match value {
        Some(value) => Some(value.as_str()),
        None => None,
    }
}

/// A copy of an optional string.
pub fn copy_optional(value: &Option<String>) -> (copy: Option<String>)
    ensures
        optional(copy) == optional(*value),
{
    match value {
        Some(value) => Some(value.clone()),
        None => None,
    }
}

/// Unicode's `White_Space` property.
pub open spec fn is_white(ch: char) -> bool {
    ||| 0x9 <= ch as u32 <= 0xd
    ||| ch as u32 == 0x20
    ||| ch as u32 == 0x85
    ||| ch as u32 == 0xa0
    ||| ch as u32 == 0x1680
    ||| 0x2000 <= ch as u32 <= 0x200a
    ||| ch as u32 == 0x2028
    ||| ch as u32 == 0x2029
    ||| ch as u32 == 0x202f
    ||| ch as u32 == 0x205f
    ||| ch as u32 == 0x3000
}

/// The white space characters as a set.
pub open spec fn white() -> Set<char> {
    Set::new(|ch: char| is_white(ch))
}

/// Whether `ch` is an ASCII digit.
pub open spec fn is_digit(ch: char) -> bool {
    '0' <= ch <= '9'
}

/// The ASCII digits as a set.
pub open spec fn digits() -> Set<char> {
    Set::new(|ch: char| is_digit(ch))
}

/// A class of characters that a text can be trimmed or split by.
pub enum CharClass {
    White,
    Digit,
    Among(Vec<char>),
}

impl CharClass {
    pub open spec fn set(&self) -> Set<char> {
        match self {
            CharClass::White => white(),
            CharClass::Digit => digits(),
            CharClass::Among(list) => list@.to_set(),
        }
    }

    pub fn has(&self, ch: char) -> (found: bool)
        ensures
            found == self.set().contains(ch),
    {
        match self {
            CharClass::White => {
                let code: u32 = ch as u32;
                (0x9 <= code && code <= 0xd) || code == 0x20 || code == 0x85 || code == 0xa0 || code
                    == 0x1680 || (0x2000 <= code && code <= 0x200a) || code == 0x2028 || code
                    == 0x2029 || code == 0x202f || code == 0x205f || code == 0x3000
            },
            CharClass::Digit => '0' <= ch && ch <= '9',
            CharClass::Among(list) => {
                let mut at: usize = 0;
                while at < list.len()
                    invariant
                        at <= list.len(),
                        self.set() == list@.to_set(),
                        forall|i: int| 0 <= i < at ==> list@[i] != ch,
                    decreases list.len() - at,
                {
                    if list[at] == ch {
                        assert(list@.contains(ch));
                        return true;
                    }
                    at = at + 1;
                }
                assert(!list@.contains(ch));
                false
            },
        }
    }
}

/// `text` without the characters of `set` that it starts with.
pub open spec fn drop_front(text: Seq<char>, set: Set<char>) -> Seq<char>
    decreases text.len(),
{
    if text.len() > 0 && set.contains(text[0]) {
        drop_front(text.skip(1), set)
    } else {
        text
    }
}

/// `text` without the characters of `set` that it ends with.
pub open spec fn drop_back(text: Seq<char>, set: Set<char>) -> Seq<char>
    decreases text.len(),
{
    if text.len() > 0 && set.contains(text.last()) {
        drop_back(text.drop_last(), set)
    } else {
        text
    }
}

/// How many characters stand before the first one of `set`.
pub open spec fn until(text: Seq<char>, set: Set<char>) -> nat
    decreases text.len(),
{
    if text.len() > 0 && !set.contains(text[0]) {
        1 + until(text.skip(1), set)
    } else {
        0
    }
}

/// `text` without white space at either end.
pub open spec fn trimmed(text: Seq<char>) -> Seq<char> {
    drop_back(drop_front(text, white()), white())
}

/// Whether `text` holds nothing but white space.
pub open spec fn blank(text: Seq<char>) -> bool {
    forall|i: int| 0 <= i < text.len() ==> is_white(text[i])
}

/// `drop_front` cuts at the first character that is not in the set.
pub proof fn lemma_drop_front(text: Seq<char>, set: Set<char>, n: int)
    requires
        0 <= n <= text.len(),
        forall|i: int| 0 <= i < n ==> set.contains(text[i]),
        n < text.len() ==> !set.contains(text[n]),
    ensures
        drop_front(text, set) == text.skip(n),
    decreases n,
{
    if n == 0 {
        assert(text.skip(0) =~= text);
    } else {
        lemma_drop_front(text.skip(1), set, n - 1);
        assert(text.skip(1).skip(n - 1) =~= text.skip(n));
    }
}

/// `drop_back` cuts behind the last character that is not in the set.
pub proof fn lemma_drop_back(text: Seq<char>, set: Set<char>, n: int)
    requires
        0 <= n <= text.len(),
        forall|i: int| n <= i < text.len() ==> set.contains(text[i]),
        n > 0 ==> !set.contains(text[n - 1]),
    ensures
        drop_back(text, set) == text.take(n),
    decreases text.len() - n,
{
    if n == text.len() {
        assert(text.take(n) =~= text);
    } else {
        lemma_drop_back(text.drop_last(), set, n);
        assert(text.drop_last().take(n) =~= text.take(n));
    }
}

/// `until` is where the first character of the set stands.
pub proof fn lemma_until(text: Seq<char>, set: Set<char>, n: int)
    requires
        0 <= n <= text.len(),
        forall|i: int| 0 <= i < n ==> !set.contains(text[i]),
        n < text.len() ==> set.contains(text[n]),
    ensures
        until(text, set) == n,
    decreases n,
{
    if n > 0 {
        lemma_until(text.skip(1), set, n - 1);
    }
}

/// What `until` promises: it stays inside the text, nothing before it belongs
/// to the set, and what stands there does.
pub proof fn lemma_until_bounds(text: Seq<char>, set: Set<char>)
    ensures
        until(text, set) <= text.len(),
        forall|i: int| 0 <= i < until(text, set) ==> !set.contains(text[i]),
        until(text, set) < text.len() ==> set.contains(text[until(text, set) as int]),
    decreases text.len(),
{
    if text.len() > 0 && !set.contains(text[0]) {
        let rest = text.skip(1);
        lemma_until_bounds(rest, set);
        assert forall|i: int| 0 <= i < until(text, set) implies !set.contains(text[i]) by {
            if i > 0 {
                assert(rest[i - 1] == text[i]);
            }
        }
    }
}

/// A trimmed text is empty exactly when the text was blank.
pub proof fn lemma_trimmed_empty(text: Seq<char>)
    ensures
        trimmed(text).len() == 0 <==> blank(text),
{
    let n = lemma_front_run(text, white());
    let rest = text.skip(n);
    lemma_drop_front(text, white(), n);
    if n == text.len() {
        assert(rest.len() == 0);
        assert forall|i: int| 0 <= i < text.len() implies is_white(text[i]) by {
            assert(white().contains(text[i]));
        }
    } else {
        let m = lemma_back_run(rest, white());
        lemma_drop_back(rest, white(), m);
        assert(!white().contains(rest[0]));
        assert(!is_white(text[n]));
        assert(m > 0);
    }
}

/// A text with no white space at either end stays as it is.
pub proof fn lemma_trimmed_solid(text: Seq<char>)
    requires
        text.len() > 0,
        !is_white(text[0]),
        !is_white(text.last()),
    ensures
        trimmed(text) == text,
{
    lemma_drop_front(text, white(), 0);
    assert(text.skip(0) =~= text);
    lemma_drop_back(text, white(), text.len() as int);
    assert(text.take(text.len() as int) =~= text);
}

/// Where the run of `set` characters at the front ends.
pub proof fn lemma_front_run(text: Seq<char>, set: Set<char>) -> (n: int)
    ensures
        0 <= n <= text.len(),
        forall|i: int| 0 <= i < n ==> set.contains(text[i]),
        n < text.len() ==> !set.contains(text[n]),
    decreases text.len(),
{
    if text.len() > 0 && set.contains(text[0]) {
        let rest = text.skip(1);
        let n = 1 + lemma_front_run(rest, set);
        assert forall|i: int| 0 <= i < n implies set.contains(text[i]) by {
            if i > 0 {
                assert(rest[i - 1] == text[i]);
            }
        }
        n
    } else {
        0
    }
}

/// Where the run of `set` characters at the back starts.
pub proof fn lemma_back_run(text: Seq<char>, set: Set<char>) -> (n: int)
    ensures
        0 <= n <= text.len(),
        forall|i: int| n <= i < text.len() ==> set.contains(text[i]),
        n > 0 ==> !set.contains(text[n - 1]),
    decreases text.len(),
{
    if text.len() > 0 && set.contains(text.last()) {
        let n = lemma_back_run(text.drop_last(), set);
        assert forall|i: int| n <= i < text.len() implies set.contains(text[i]) by {
            if i < text.len() - 1 {
                assert(text.drop_last()[i] == text[i]);
            }
        }
        n
    } else {
        text.len() as int
    }
}

/// The first position in `from..to` whose character is not in `class`, or `to`.
pub fn skip_class(chars: &Vec<char>, from: usize, to: usize, class: &CharClass) -> (at: usize)
    requires
        from <= to <= chars.len(),
    ensures
        from <= at <= to,
        forall|i: int| from <= i < at ==> class.set().contains(chars@[i]),
        at < to ==> !class.set().contains(chars@[at as int]),
{
    let mut at: usize = from;
    while at < to && class.has(chars[at])
        invariant
            from <= at <= to <= chars.len(),
            forall|i: int| from <= i < at ==> class.set().contains(chars@[i]),
        decreases to - at,
    {
        at = at + 1;
    }
    at
}

/// The end of `from..to` once the characters of `class` are dropped from the back.
pub fn skip_class_back(chars: &Vec<char>, from: usize, to: usize, class: &CharClass) -> (at: usize)
    requires
        from <= to <= chars.len(),
    ensures
        from <= at <= to,
        forall|i: int| at <= i < to ==> class.set().contains(chars@[i]),
        at > from ==> !class.set().contains(chars@[at - 1]),
{
    let mut at: usize = to;
    while at > from && class.has(chars[at - 1])
        invariant
            from <= at <= to <= chars.len(),
            forall|i: int| at <= i < to ==> class.set().contains(chars@[i]),
        decreases at,
    {
        at = at - 1;
    }
    at
}

/// `text` without the characters of `front` it starts with and then without
/// those of `back` it ends with.
pub fn strip_classes(text: &str, front: &CharClass, back: &CharClass) -> (kept: String)
    ensures
        kept@ == drop_back(drop_front(text@, front.set()), back.set()),
{
    let chars = chars_of(text);
    let from = skip_class(&chars, 0, chars.len(), front);
    let to = skip_class_back(&chars, from, chars.len(), back);
    proof {
        lemma_drop_front(text@, front.set(), from as int);
        let rest = text@.skip(from as int);
        lemma_drop_back(rest, back.set(), to - from);
        assert(rest.take(to - from) =~= text@.subrange(from as int, to as int));
    }
    string_of(&chars, from, to)
}

/// `text` without the characters of `class` that it ends with.
pub fn strip_back(text: &str, class: &CharClass) -> (kept: String)
    ensures
        kept@ == drop_back(text@, class.set()),
{
    let chars = chars_of(text);
    let to = skip_class_back(&chars, 0, chars.len(), class);
    proof {
        lemma_drop_back(text@, class.set(), to as int);
        assert(text@.take(to as int) =~= text@.subrange(0, to as int));
    }
    string_of(&chars, 0, to)
}

/// `text` without white space at either end.
pub fn trim(text: &str) -> (kept: String)
    ensures
        kept@ == trimmed(text@),
{
    strip_classes(text, &CharClass::White, &CharClass::White)
}

/// Whether `text` holds nothing but white space.
pub fn is_blank(text: &str) -> (yes: bool)
    ensures
        yes == blank(text@),
        yes == (trimmed(text@).len() == 0),
{
    let chars = chars_of(text);
    let at = skip_class(&chars, 0, chars.len(), &CharClass::White);
    proof {
        lemma_trimmed_empty(text@);
        if at == chars.len() {
            assert forall|i: int| 0 <= i < text@.len() implies is_white(text@[i]) by {
                assert(white().contains(chars@[i]));
            }
        } else {
            assert(!is_white(text@[at as int]));
        }
    }
    at == chars.len()
}


/// Whether `needle` stands in `hay` at position `at`.
pub open spec fn occurs_at(hay: Seq<char>, needle: Seq<char>, at: int) -> bool {
    0 <= at && at + needle.len() <= hay.len() && hay.subrange(at, at + needle.len()) == needle
}

/// Whether `needle` stands anywhere in `hay`.
pub open spec fn has_text(hay: Seq<char>, needle: Seq<char>) -> bool {
    exists|at: int| #[trigger] occurs_at(hay, needle, at)
}

/// The first position of `needle` in `hay`.
pub open spec fn first_at(hay: Seq<char>, needle: Seq<char>) -> Option<int> {
    first_from(hay, needle, 0)
}

/// The first position of `needle` in `hay` that is not before `from`.
pub open spec fn first_from(hay: Seq<char>, needle: Seq<char>, from: int) -> Option<int>
    decreases hay.len() + 1 - from,
{
    if from + needle.len() > hay.len() {
        None
    } else if occurs_at(hay, needle, from) {
        Some(from)
    } else {
        first_from(hay, needle, from + 1)
    }
}

/// What `first_from` promises: the first occurrence from a position on, if
/// there is one.
pub proof fn lemma_first_from(hay: Seq<char>, needle: Seq<char>, from: int)
    requires
        0 <= from,
    ensures
        match first_from(hay, needle, from) {
            Some(at) => from <= at && occurs_at(hay, needle, at) && forall|i: int|
                from <= i < at ==> !#[trigger] occurs_at(hay, needle, i),
            None => forall|i: int| from <= i ==> !#[trigger] occurs_at(hay, needle, i),
        },
    decreases hay.len() + 1 - from,
{
    if from + needle.len() <= hay.len() && !occurs_at(hay, needle, from) {
        lemma_first_from(hay, needle, from + 1);
    }
}

/// `first_at` finds a position exactly when there is one.
pub proof fn lemma_first_at(hay: Seq<char>, needle: Seq<char>)
    ensures
        first_at(hay, needle) is Some <==> has_text(hay, needle),
        first_at(hay, needle) matches Some(at) ==> occurs_at(hay, needle, at),
{
    lemma_first_from(hay, needle, 0);
}

/// The position, among `hay`'s characters, of the first `needle` from `from` on.
pub fn find_chars(hay: &Vec<char>, needle: &Vec<char>, from: usize) -> (found: Option<usize>)
    requires
        from <= hay.len(),
    ensures
        match found {
            Some(at) => first_from(hay@, needle@, from as int) == Some(at as int),
            None => first_from(hay@, needle@, from as int) is None,
        },
{
    if needle.len() > hay.len() {
        return None;
    }
    let last: usize = hay.len() - needle.len();
    let mut at: usize = from;
    while at <= last
        invariant
            from <= at <= hay.len(),
            last == hay.len() - needle.len(),
            needle.len() <= hay.len(),
            first_from(hay@, needle@, from as int) == first_from(hay@, needle@, at as int),
        decreases hay.len() + 1 - at,
    {
        let mut k: usize = 0;
        while k < needle.len() && hay[at + k] == needle[k]
            invariant
                k <= needle.len(),
                at <= last,
                last == hay.len() - needle.len(),
                forall|i: int| 0 <= i < k ==> hay@[at + i] == needle@[i],
            decreases needle.len() - k,
        {
            k = k + 1;
        }
        if k == needle.len() {
            assert(hay@.subrange(at as int, at + needle@.len()) =~= needle@);
            return Some(at);
        }
        assert(hay@.subrange(at as int, at + needle@.len())[k as int] != needle@[k as int]);
        at = at + 1;
    }
    None
}

/// Whether `needle` stands anywhere in `hay`.
pub fn contains(hay: &str, needle: &str) -> (yes: bool)
    ensures
        yes == has_text(hay@, needle@),
{
    proof {
        lemma_first_at(hay@, needle@);
    }
    find_chars(&chars_of(hay), &chars_of(needle), 0).is_some()
}

/// Whether `text` starts with `prefix`.
pub open spec fn has_prefix(text: Seq<char>, prefix: Seq<char>) -> bool {
    occurs_at(text, prefix, 0)
}

/// What follows `prefix` in `text`, when `text` starts with it.
pub fn strip_prefix(text: &str, prefix: &str) -> (rest: Option<String>)
    ensures
        match rest {
            Some(rest) => has_prefix(text@, prefix@) && rest@ == text@.skip(prefix@.len() as int),
            None => !has_prefix(text@, prefix@),
        },
{
    let chars = chars_of(text);
    let head = chars_of(prefix);
    if head.len() > chars.len() {
        return None;
    }
    let mut k: usize = 0;
    while k < head.len()
        invariant
            k <= head.len() <= chars.len(),
            chars@ == text@,
            head@ == prefix@,
            forall|i: int| 0 <= i < k ==> chars@[i] == head@[i],
        decreases head.len() - k,
    {
        if chars[k] != head[k] {
            assert(text@.subrange(0, prefix@.len() as int)[k as int] != prefix@[k as int]);
            return None;
        }
        k = k + 1;
    }
    assert(text@.subrange(0, prefix@.len() as int) =~= prefix@);
    assert(text@.subrange(prefix@.len() as int, text@.len() as int) =~= text@.skip(
        prefix@.len() as int,
    ));
    Some(string_of(&chars, head.len(), chars.len()))
}

/// The decimal digit `d`.
pub open spec fn digit(d: nat) -> char {
    (48 + d) as char
}

/// `n` in decimal notation, without leading zeros.
pub open spec fn decimal(n: nat) -> Seq<char>
    decreases n,
{
    if n < 10 {
        seq![digit(n)]
    } else {
        decimal(n / 10).push(digit(n % 10))
    }
}

/// `n` in decimal notation, with a minus sign where it is negative.
pub open spec fn signed_decimal(n: int) -> Seq<char> {
    if n < 0 {
        seq!['-'] + decimal((-n) as nat)
    } else {
        decimal(n as nat)
    }
}

/// Whether `text` is made of ASCII digits alone.
pub open spec fn all_digits(text: Seq<char>) -> bool {
    forall|i: int| 0 <= i < text.len() ==> is_digit(#[trigger] text[i])
}

/// The number that a text of digits stands for.
pub open spec fn number(text: Seq<char>) -> nat
    decreases text.len(),
{
    if text.len() == 0 {
        0
    } else {
        number(text.drop_last()) * 10 + (text.last() as nat - 48) as nat
    }
}

/// Reading the decimal notation of a number gives the number back.
pub proof fn lemma_decimal_reads_back(n: nat)
    ensures
        all_digits(decimal(n)),
        decimal(n).len() > 0,
        number(decimal(n)) == n,
    decreases n,
{
    if n < 10 {
        let text = decimal(n);
        assert(text.last() == digit(n));
        assert(text.drop_last() =~= Seq::<char>::empty());
        assert(number(text.drop_last()) == 0);
    } else {
        lemma_decimal_reads_back(n / 10);
        let text = decimal(n);
        assert(text.drop_last() =~= decimal(n / 10));
        assert(text.last() == digit(n % 10));
    }
}

/// Appends `n` in decimal notation.
pub fn push_decimal(text: &mut String, n: u64)
    ensures
        final(text)@ == old(text)@ + decimal(n as nat),
    decreases n,
{
    let low: u8 = (n % 10) as u8;
    let ch: char = (48 + low) as char;
    if n < 10 {
        text.push(ch);
        assert(text@ =~= old(text)@ + decimal(n as nat));
    } else {
        push_decimal(text, n / 10);
        text.push(ch);
        assert(text@ =~= old(text)@ + decimal(n as nat));
    }
}


/// Appends `n` in decimal notation, with a minus sign where it is negative.
pub fn push_signed(text: &mut String, n: i64)
    ensures
        final(text)@ == old(text)@ + signed_decimal(n as int),
{
    if n < 0 {
        text.push('-');
        let magnitude: u64 = if n == i64::MIN {
            0x8000000000000000
        } else {
            (-n) as u64
        };
        push_decimal(text, magnitude);
        assert(text@ =~= old(text)@ + signed_decimal(n as int));
    } else {
        push_decimal(text, n as u64);
    }
}

/// Copies a list of strings.
pub fn copy_texts(list: &Vec<String>) -> (copy: Vec<String>)
    ensures
        texts(copy@) == texts(list@),
{
    let mut copy: Vec<String> = Vec::new();
    let mut at: usize = 0;
    while at < list.len()
        invariant
            at <= list.len(),
            copy@.len() == at,
            forall|i: int| 0 <= i < at ==> (#[trigger] copy@[i])@ == list@[i]@,
        decreases list.len() - at,
    {
        copy.push(list[at].clone());
        at = at + 1;
    }
    assert(texts(copy@) =~= texts(list@));
    copy
}

/// The number that a text of digits, with or without a plus sign in front,
/// stands for, where it fits 64 bits.
pub open spec fn u64_value(text: Seq<char>) -> Option<u64> {
    let body = if text.len() > 0 && text[0] == '+' {
        text.skip(1)
    } else {
        text
    };
    if body.len() > 0 && all_digits(body) && number(body) <= u64::MAX {
        Some(number(body) as u64)
    } else {
        None
    }
}

proof fn lemma_number_grows(text: Seq<char>, n: int)
    requires
        0 <= n <= text.len(),
        all_digits(text),
    ensures
        number(text.take(n)) <= number(text),
    decreases text.len() - n,
{
    if n == text.len() {
        assert(text.take(n) =~= text);
    } else {
        let shorter = text.drop_last();
        assert(all_digits(shorter));
        lemma_number_grows(shorter, n);
        assert(shorter.take(n) =~= text.take(n));
    }
}

/// Reads an unsigned number.
pub fn parse_u64(text: &str) -> (value: Option<u64>)
    ensures
        value == u64_value(text@),
{
    let chars = chars_of(text);
    let mut at: usize = 0;
    if chars.len() > 0 && chars[0] == '+' {
        at = 1;
    }
    let ghost start = at as int;
    let ghost body = text@.skip(start);
    assert(text@.skip(0) =~= text@);
    if at == chars.len() {
        return None;
    }
    let mut value: u64 = 0;
    assert(body.take(0).len() == 0);
    while at < chars.len()
        invariant
            start <= at <= chars.len(),
            chars@ == text@,
            body == text@.skip(start),
            body.len() > 0,
            0 <= start <= 1,
            u64_value(text@) == (if all_digits(body) && number(body) <= u64::MAX {
                Some(number(body) as u64)
            } else {
                None
            }),
            value == number(body.take(at - start)),
            forall|i: int| 0 <= i < at - start ==> is_digit(#[trigger] body[i]),
        decreases chars.len() - at,
    {
        let ch: char = chars[at];
        assert(ch == body[at - start]);
        if ch < '0' || '9' < ch {
            assert(!is_digit(body[at - start]));
            return None;
        }
        let d: u64 = (ch as u32 - 48) as u64;
        let ghost n = at - start;
        proof {
            assert(body.take(n + 1).drop_last() =~= body.take(n));
            assert(body.take(n + 1).last() == ch);
            assert(number(body.take(n + 1)) == number(body.take(n)) * 10 + d);
            if all_digits(body) {
                lemma_number_grows(body, n + 1);
            }
        }
        if value > (u64::MAX - d) / 10 {
            return None;
        }
        value = value * 10 + d;
        at = at + 1;
    }
    assert(body.take(body.len() as int) =~= body);
    Some(value)
}

/// The number that a text of digits, with or without a sign in front, stands
/// for, where it fits 32 bits.
pub open spec fn i32_value(text: Seq<char>) -> Option<i32> {
    if text.len() > 0 && text[0] == '-' {
        let body = text.skip(1);
        if body.len() > 0 && all_digits(body) && number(body) <= 0x8000_0000 {
            Some((0 - number(body)) as i32)
        } else {
            None
        }
    } else {
        match u64_value(text) {
            Some(n) => if n <= i32::MAX {
                Some(n as i32)
            } else {
                None
            },
            None => None,
        }
    }
}

/// Reads a number with a sign.
pub fn parse_i32(text: &str) -> (value: Option<i32>)
    ensures
        value == i32_value(text@),
{
    let chars = chars_of(text);
    if chars.len() == 0 || chars[0] != '-' {
        return match parse_u64(text) {
            Some(n) => if n <= 0x7fff_ffff {
                Some(n as i32)
            } else {
                None
            },
            None => None,
        };
    }
    let ghost body = text@.skip(1);
    assert(text@.subrange(1, text@.len() as int) =~= body);
    if chars.len() == 1 {
        return None;
    }
    assert(body[0] == chars@[1]);
    if chars[1] == '+' {
        assert(!is_digit(body[0]));
        return None;
    }
    match parse_u64(string_of(&chars, 1, chars.len()).as_str()) {
        Some(n) => if n < 0x8000_0000 {
            Some(-(n as i32))
        } else if n == 0x8000_0000 {
            Some(i32::MIN)
        } else {
            None
        },
        None => None,
    }
}

/// `parts` one after the other, with `separator` between each two.
pub open spec fn joined(parts: Seq<Seq<char>>, separator: Seq<char>) -> Seq<char>
    decreases parts.len(),
{
    if parts.len() == 0 {
        Seq::empty()
    } else if parts.len() == 1 {
        parts[0]
    } else {
        joined(parts.drop_last(), separator) + separator + parts.last()
    }
}

/// The strings at positions `from..to`, joined.
pub fn join(parts: &Vec<String>, from: usize, to: usize, separator: &str) -> (text: String)
    requires
        from <= to <= parts.len(),
    ensures
        text@ == joined(texts(parts@).subrange(from as int, to as int), separator@),
{
    let mut text = String::new();
    let mut at: usize = from;
    let ghost all = texts(parts@);
    while at < to
        invariant
            from <= at <= to <= parts.len(),
            all == texts(parts@),
            text@ == joined(all.subrange(from as int, at as int), separator@),
        decreases to - at,
    {
        let ghost grown = all.subrange(from as int, at + 1);
        assert(grown.drop_last() =~= all.subrange(from as int, at as int));
        assert(grown.last() == parts@[at as int]@);
        if at > from {
            text.append(separator);
        }
        text.append(parts[at].as_str());
        assert(text@ =~= joined(grown, separator@));
        at = at + 1;
    }
    text
}

/// The words of a text: what its white space separates.
pub open spec fn words(text: Seq<char>) -> Seq<Seq<char>>
    decreases text.len(),
    via words_decreases
{
    let rest = drop_front(text, white());
    if rest.len() == 0 {
        Seq::empty()
    } else {
        let n = until(rest, white()) as int;
        seq![rest.take(n)] + words(rest.skip(n))
    }
}

#[via_fn]
proof fn words_decreases(text: Seq<char>) {
    let n = lemma_front_run(text, white());
    lemma_drop_front(text, white(), n);
    let rest = text.skip(n);
    lemma_until_bounds(rest, white());
}

/// No word is empty, and none holds white space.
pub proof fn lemma_words_are_solid(text: Seq<char>)
    ensures
        forall|i: int|
            0 <= i < words(text).len() ==> (#[trigger] words(text)[i]).len() > 0 && is_solid(
                words(text)[i],
            ),
    decreases text.len(),
{
    let at = lemma_front_run(text, white());
    lemma_drop_front(text, white(), at);
    let rest = text.skip(at);
    assert(drop_front(text, white()) == rest);
    if rest.len() > 0 {
        lemma_until_bounds(rest, white());
        let n = until(rest, white()) as int;
        assert(!white().contains(rest[0]));
        assert(n > 0);
        let word = rest.take(n);
        assert forall|k: int| 0 <= k < word.len() implies !is_white(#[trigger] word[k]) by {
            assert(!white().contains(rest[k]));
        }
        lemma_words_are_solid(rest.skip(n));
        let later = words(rest.skip(n));
        assert forall|i: int| 0 <= i < words(text).len() implies (#[trigger] words(text)[i]).len()
            > 0 && is_solid(words(text)[i]) by {
            if i > 0 {
                assert(words(text)[i] == later[i - 1]);
            }
        }
    }
}

/// Whether `text` holds no white space.
pub open spec fn is_solid(text: Seq<char>) -> bool {
    forall|i: int| 0 <= i < text.len() ==> !is_white(#[trigger] text[i])
}

/// Whether white space stands in `text` only between two characters that are
/// none.
pub open spec fn is_spaced_singly(text: Seq<char>) -> bool {
    &&& text.len() > 0 ==> !is_white(text[0]) && !is_white(text.last())
    &&& forall|i: int, j: int|
        0 <= i && j == i + 1 && j < text.len() && is_white(#[trigger] text[i]) ==> !is_white(
            #[trigger] text[j],
        )
}

/// What solid parts make when they are joined by spaces: no other white space
/// than those, and one of them less than there are parts.
pub proof fn lemma_joined_by_spaces(parts: Seq<Seq<char>>)
    requires
        forall|i: int|
            0 <= i < parts.len() ==> (#[trigger] parts[i]).len() > 0 && is_solid(parts[i]),
    ensures
        is_spaced_singly(joined(parts, " "@)),
        parts.len() > 0 ==> joined(parts, " "@).len() > 0,
        forall|i: int|
            0 <= i < joined(parts, " "@).len() ==> is_white(#[trigger] joined(parts, " "@)[i])
                ==> joined(parts, " "@)[i] == ' ',
        parts.len() > 0 ==> count_of(joined(parts, " "@), ' ') == parts.len() - 1,
    decreases parts.len(),
{
    reveal_strlit(" ");
    let whole = joined(parts, " "@);
    if parts.len() == 1 {
        assert(is_solid(parts[0]));
        lemma_count_none(parts[0], ' ');
    } else if parts.len() > 1 {
        let early = parts.drop_last();
        assert forall|i: int| 0 <= i < early.len() implies (#[trigger] early[i]).len() > 0
            && is_solid(early[i]) by {
            assert(is_solid(parts[i]));
        }
        lemma_joined_by_spaces(early);
        let start = joined(early, " "@);
        assert(is_solid(parts[parts.len() - 1]));
        lemma_count_none(parts.last(), ' ');
        lemma_count_concat(start, " "@, ' ');
        lemma_count_concat(start + " "@, parts.last(), ' ');
        reveal_with_fuel(count_of, 2);
        assert(count_of(" "@, ' ') == 1);
        assert forall|i: int| 0 <= i < whole.len() && is_white(#[trigger] whole[i]) implies whole[i]
            == ' ' by {
            if i < start.len() {
                assert(whole[i] == start[i]);
            } else if i > start.len() {
                assert(whole[i] == parts.last()[i - start.len() - 1]);
            }
        }
        assert(whole[0] == start[0]);
        assert(whole.last() == parts.last().last());
        assert forall|i: int, j: int|
            0 <= i && j == i + 1 && j < whole.len() && is_white(
                #[trigger] whole[i],
            ) implies !is_white(#[trigger] whole[j]) by {
            if j < start.len() {
                assert(whole[i] == start[i]);
                assert(whole[j] == start[j]);
            } else if j == start.len() {
                assert(whole[i] == start.last());
            } else {
                assert(whole[j] == parts.last()[j - start.len() - 1]);
            }
        }
    }
}

proof fn lemma_count_none(text: Seq<char>, ch: char)
    requires
        is_solid(text),
        is_white(ch),
    ensures
        count_of(text, ch) == 0,
    decreases text.len(),
{
    if text.len() > 0 {
        assert(!is_white(text[text.len() - 1]));
        assert forall|i: int| 0 <= i < text.drop_last().len() implies !is_white(
            #[trigger] text.drop_last()[i],
        ) by {
            assert(!is_white(text[i]));
        }
        lemma_count_none(text.drop_last(), ch);
    }
}

/// What stands in two texts stands in their concatenation.
pub proof fn lemma_count_concat(first: Seq<char>, second: Seq<char>, ch: char)
    ensures
        count_of(first + second, ch) == count_of(first, ch) + count_of(second, ch),
    decreases second.len(),
{
    if second.len() == 0 {
        assert(first + second =~= first);
    } else {
        lemma_count_concat(first, second.drop_last(), ch);
        assert((first + second).drop_last() =~= first + second.drop_last());
        assert((first + second).last() == second.last());
    }
}

/// A part of a text does not hold a character more often than the text.
pub proof fn lemma_count_take(text: Seq<char>, n: int, ch: char)
    requires
        0 <= n <= text.len(),
    ensures
        count_of(text.take(n), ch) <= count_of(text, ch),
{
    lemma_count_concat(text.take(n), text.skip(n), ch);
    assert(text.take(n) + text.skip(n) =~= text);
}

/// Splits a text into its words.
pub fn split_words(text: &str) -> (parts: Vec<String>)
    ensures
        texts(parts@) == words(text@),
{
    let chars = chars_of(text);
    let mut parts: Vec<String> = Vec::new();
    let mut at: usize = skip_class(&chars, 0, chars.len(), &CharClass::White);
    proof {
        lemma_drop_front(text@, white(), at as int);
        assert(drop_front(text@.skip(at as int), white()) =~= text@.skip(at as int));
        assert(texts(parts@) + words(text@.skip(at as int)) =~= words(text@.skip(at as int)));
        assert(words(text@) == words(text@.skip(at as int)));
    }
    while at < chars.len()
        invariant
            at <= chars.len(),
            chars@ == text@,
            at < chars.len() ==> !white().contains(chars@[at as int]),
            words(text@) == texts(parts@) + words(text@.skip(at as int)),
        decreases chars.len() - at,
    {
        let mut end: usize = at;
        while end < chars.len() && !CharClass::White.has(chars[end])
            invariant
                at <= end <= chars.len(),
                forall|i: int| at <= i < end ==> !white().contains(chars@[i]),
            decreases chars.len() - end,
        {
            end = end + 1;
        }
        let next = skip_class(&chars, end, chars.len(), &CharClass::White);
        let word = string_of(&chars, at, end);
        let ghost before = parts@;
        parts.push(word);
        proof {
            let rest = text@.skip(at as int);
            assert(drop_front(rest, white()) == rest);
            lemma_until(rest, white(), end - at);
            assert(rest.take(end - at) =~= word@);
            let tail = rest.skip(end - at);
            assert(tail =~= text@.skip(end as int));
            lemma_drop_front(tail, white(), next - end);
            let after = text@.skip(next as int);
            assert(tail.skip(next - end) =~= after);
            lemma_drop_front(after, white(), 0);
            assert(after.skip(0) =~= after);
            assert(words(tail) == words(after));
            assert(words(rest) =~= seq![word@] + words(after));
            assert(texts(parts@) =~= texts(before).push(word@));
            assert(texts(parts@) + words(after) =~= texts(before) + (seq![word@] + words(after)));
        }
        at = next;
    }
    assert(words(text@.skip(at as int)) =~= Seq::empty());
    parts
}

/// The line feed as a set.
pub open spec fn feed() -> Set<char> {
    Set::new(|ch: char| ch == '\n')
}

/// A line that ended in a line feed, without a carriage return before it.
pub open spec fn without_return(line: Seq<char>) -> Seq<char> {
    if line.len() > 0 && line.last() == '\r' {
        line.drop_last()
    } else {
        line
    }
}

/// The lines of a text. The line feed that ends a line is not part of it, nor
/// is the carriage return before one; after a last line feed no line follows.
pub open spec fn lines(text: Seq<char>) -> Seq<Seq<char>>
    decreases text.len(),
    via lines_decreases
{
    let n = until(text, feed()) as int;
    if text.len() == 0 {
        Seq::empty()
    } else if n < text.len() {
        seq![without_return(text.take(n))] + lines(text.skip(n + 1))
    } else {
        seq![text]
    }
}

#[via_fn]
proof fn lines_decreases(text: Seq<char>) {
    lemma_until_bounds(text, feed());
}

/// Splits a text into its lines.
pub fn split_lines(text: &str) -> (parts: Vec<String>)
    ensures
        texts(parts@) == lines(text@),
{
    let chars = chars_of(text);
    let mut parts: Vec<String> = Vec::new();
    let mut at: usize = 0;
    proof {
        assert(text@.skip(0) =~= text@);
        assert(texts(parts@) + lines(text@) =~= lines(text@));
    }
    while at < chars.len()
        invariant
            at <= chars.len(),
            chars@ == text@,
            lines(text@) == texts(parts@) + lines(text@.skip(at as int)),
        decreases chars.len() - at,
    {
        let mut end: usize = at;
        while end < chars.len() && chars[end] != '\n'
            invariant
                at <= end <= chars.len(),
                forall|i: int| at <= i < end ==> chars@[i] != '\n',
            decreases chars.len() - end,
        {
            end = end + 1;
        }
        let ghost before = parts@;
        let ghost rest = text@.skip(at as int);
        proof {
            lemma_until(rest, feed(), end - at);
        }
        if end < chars.len() {
            let mut cut: usize = end;
            if end > at && chars[end - 1] == '\r' {
                cut = end - 1;
            }
            let line = string_of(&chars, at, cut);
            parts.push(line);
            proof {
                assert(rest.take(end - at) =~= text@.subrange(at as int, end as int));
                assert(without_return(rest.take(end - at)) =~= line@);
                let after = text@.skip(end + 1);
                assert(rest.skip(end - at + 1) =~= after);
                assert(texts(parts@) =~= texts(before).push(line@));
                assert(texts(parts@) + lines(after) =~= texts(before) + (seq![line@] + lines(
                    after,
                )));
            }
            at = end + 1;
        } else {
            let line = string_of(&chars, at, end);
            parts.push(line);
            proof {
                assert(rest =~= line@);
                let after = text@.skip(end as int);
                assert(after.len() == 0);
                assert(lines(after) =~= Seq::empty());
                assert(texts(parts@) =~= texts(before).push(line@));
                assert(texts(parts@) + lines(after) =~= texts(before) + seq![line@]);
            }
            at = end;
        }
    }
    assert(lines(text@.skip(at as int)) =~= Seq::empty());
    assert(texts(parts@) + Seq::empty() =~= texts(parts@));
    parts
}

/// How often `ch` stands in `text`.
pub open spec fn count_of(text: Seq<char>, ch: char) -> nat
    decreases text.len(),
{
    if text.len() == 0 {
        0
    } else {
        count_of(text.drop_last(), ch) + if text.last() == ch {
            1nat
        } else {
            0nat
        }
    }
}

/// Counts the occurrences of a character.
pub fn count_char(text: &str, ch: char) -> (n: usize)
    ensures
        n == count_of(text@, ch),
{
    let chars = chars_of(text);
    let mut n: usize = 0;
    let mut at: usize = 0;
    while at < chars.len()
        invariant
            at <= chars.len(),
            n <= at,
            n == count_of(chars@.take(at as int), ch),
        decreases chars.len() - at,
    {
        assert(chars@.take(at + 1).drop_last() =~= chars@.take(at as int));
        if chars[at] == ch {
            n = n + 1;
        }
        at = at + 1;
    }
    assert(chars@.take(at as int) =~= text@);
    n
}

/// The length of a text in bytes, encoded in UTF-8.
pub open spec fn byte_length(text: Seq<char>) -> nat {
    encode_utf8(text).len()
}

/// The length of a text in bytes.
pub fn byte_len(text: &str) -> (n: usize)
    ensures
        n == byte_length(text@),
{
    text.as_bytes().len()
}


/// The characters of `set` that `text` starts with.
pub open spec fn leading(text: Seq<char>, set: Set<char>) -> Seq<char> {
    text.take(text.len() - drop_front(text, set).len())
}

/// The bytes that one character takes in UTF-8.
pub open spec fn char_width(ch: char) -> nat {
    encode_scalar(ch as u32).len()
}

proof fn lemma_byte_length_push(text: Seq<char>, ch: char)
    ensures
        byte_length(text.push(ch)) == byte_length(text) + char_width(ch),
    decreases text.len(),
{
    let grown = text.push(ch);
    if text.len() == 0 {
        assert(grown.drop_first() =~= text);
        assert(encode_utf8(grown.drop_first()).len() == 0);
        assert(grown[0] == ch);
    } else {
        lemma_byte_length_push(text.drop_first(), ch);
        assert(grown.drop_first() =~= text.drop_first().push(ch));
        assert(grown[0] == text[0]);
    }
}

fn width_of(ch: char) -> (width: usize)
    ensures
        width == char_width(ch),
        1 <= width <= 4,
{
    let code: u32 = ch as u32;
    if code <= 0x7f {
        1
    } else if code <= 0x7ff {
        2
    } else if code <= 0xffff {
        3
    } else {
        4
    }
}

/// Whether `part` is the longest start of `text` that takes at most `max_bytes`
/// bytes in UTF-8.
pub open spec fn longest_fit(text: Seq<char>, part: Seq<char>, max_bytes: nat) -> bool {
    &&& part.len() <= text.len()
    &&& part == text.take(part.len() as int)
    &&& byte_length(part) <= max_bytes
    &&& part.len() < text.len() ==> byte_length(text.take(part.len() as int + 1)) > max_bytes
}

/// Counts the characters of the longest start of `text` that takes at most
/// `max_bytes` bytes in UTF-8.
pub fn fitting_chars(text: &str, max_bytes: usize) -> (n: usize)
    ensures
        n <= text@.len(),
        longest_fit(text@, text@.take(n as int), max_bytes as nat),
{
    let chars = chars_of(text);
    let mut n: usize = 0;
    let mut used: usize = 0;
    assert(text@.take(0) =~= Seq::empty());
    while n < chars.len()
        invariant
            n <= chars.len(),
            chars@ == text@,
            used == byte_length(text@.take(n as int)),
            used <= max_bytes,
        decreases chars.len() - n,
    {
        let width = width_of(chars[n]);
        proof {
            lemma_byte_length_push(text@.take(n as int), text@[n as int]);
            assert(text@.take(n + 1) =~= text@.take(n as int).push(text@[n as int]));
        }
        if width > max_bytes - used {
            return n;
        }
        used = used + width;
        n = n + 1;
    }
    n
}

// ==================== Putting together what was taken apart ====================

/// An optional text is seen as it is, and so are the texts of a list, one by
/// one.
pub proof fn lemma_texts_are_seen_as_they_are(
    value: Option<String>,
    slice: Option<&str>,
    list: Seq<String>,
    i: int,
)
    ensures
        optional(value) is Some <==> value is Some,
        value matches Some(text) ==> optional(value) == Some(text@),
        optional_slice(slice) is Some <==> slice is Some,
        slice matches Some(text) ==> optional_slice(slice) == Some(text@),
        texts(list).len() == list.len(),
        0 <= i < list.len() ==> texts(list)[i] == list[i]@,
{
}

/// Trimming takes white space off both ends and nothing else.
pub proof fn lemma_trimming_takes_only_white_space(text: Seq<char>) -> (cut: (int, int))
    ensures
        0 <= cut.0 <= cut.1 <= text.len(),
        trimmed(text) == text.subrange(cut.0, cut.1),
        forall|i: int| 0 <= i < cut.0 ==> is_white(#[trigger] text[i]),
        forall|i: int| cut.1 <= i < text.len() ==> is_white(#[trigger] text[i]),
        trimmed(text).len() > 0 ==> !is_white(trimmed(text)[0]) && !is_white(trimmed(text).last()),
{
    let a = lemma_front_run(text, white());
    lemma_drop_front(text, white(), a);
    let rest = text.skip(a);
    let n = lemma_back_run(rest, white());
    lemma_drop_back(rest, white(), n);
    assert(rest.take(n) =~= text.subrange(a, a + n));
    assert forall|i: int| 0 <= i < a implies is_white(#[trigger] text[i]) by {
        assert(white().contains(text[i]));
    }
    assert forall|i: int| a + n <= i < text.len() implies is_white(#[trigger] text[i]) by {
        assert(white().contains(rest[i - a]));
    }
    if n > 0 {
        assert(!white().contains(rest[n - 1]));
        if rest.len() > 0 {
            assert(!white().contains(rest[0])) by {
                assert(rest[0] == text[a]);
            }
        }
    }
    (a, a + n)
}

proof fn lemma_joined_front(parts: Seq<Seq<char>>, separator: Seq<char>)
    requires
        parts.len() > 1,
    ensures
        joined(parts, separator) == parts[0] + separator + joined(parts.skip(1), separator),
    decreases parts.len(),
{
    let rest = parts.skip(1);
    if parts.len() == 2 {
        assert(parts.drop_last().len() == 1);
        assert(rest.len() == 1);
        assert(rest[0] == parts.last());
        assert(joined(parts.drop_last(), separator) == parts[0]);
        assert(joined(rest, separator) == parts.last());
    } else {
        lemma_joined_front(parts.drop_last(), separator);
        assert(parts.drop_last().skip(1) =~= rest.drop_last());
        assert(rest.last() == parts.last());
        assert(joined(parts, separator) =~= parts[0] + separator + joined(rest, separator));
    }
}

/// Words that are joined by spaces are the words of what they make.
pub proof fn lemma_words_put_together(parts: Seq<Seq<char>>)
    requires
        forall|i: int|
            0 <= i < parts.len() ==> (#[trigger] parts[i]).len() > 0 && is_solid(parts[i]),
    ensures
        words(joined(parts, " "@)) == parts,
    decreases parts.len(),
{
    reveal_strlit(" ");
    let whole = joined(parts, " "@);
    if parts.len() == 0 {
        assert(drop_front(whole, white()).len() == 0);
        assert(words(whole) =~= parts);
    } else {
        let first = parts[0];
        let n = first.len() as int;
        let late = parts.skip(1);
        assert(is_solid(first));
        if parts.len() > 1 {
            lemma_joined_front(parts, " "@);
        }
        assert(whole.len() >= n);
        assert forall|i: int| 0 <= i < n implies whole[i] == first[i] by {}
        assert(!is_white(first[0]));
        lemma_drop_front(whole, white(), 0);
        assert(whole.skip(0) =~= whole);
        assert forall|i: int| 0 <= i < n implies !white().contains(#[trigger] whole[i]) by {
            assert(!is_white(first[i]));
        }
        if parts.len() > 1 {
            assert(whole[n] == ' ');
        }
        lemma_until(whole, white(), n);
        assert(whole.take(n) =~= first);
        assert forall|i: int| 0 <= i < late.len() implies (#[trigger] late[i]).len() > 0
            && is_solid(late[i]) by {
            assert(late[i] == parts[i + 1]);
        }
        lemma_words_put_together(late);
        let rest = whole.skip(n);
        if parts.len() > 1 {
            let tail = joined(late, " "@);
            assert(rest =~= " "@ + tail);
            assert(late[0] == parts[1]);
            if late.len() > 1 {
                lemma_joined_front(late, " "@);
            }
            assert(tail[0] == late[0][0]);
            assert(!is_white(late[0][0]));
            assert(rest.skip(1) =~= tail);
            assert(!white().contains(rest[1]));
            assert(white().contains(rest[0]));
            lemma_drop_front(rest, white(), 1);
            lemma_drop_front(tail, white(), 0);
            assert(tail.skip(0) =~= tail);
            assert(words(rest) == words(tail));
        } else {
            assert(rest.len() == 0);
            assert(drop_front(rest, white()).len() == 0);
            assert(words(rest) =~= Seq::empty());
        }
        assert(seq![first] + late =~= parts);
    }
}

/// A text up to its first line feed is its first line, without a carriage return
/// before the line feed; what follows are its other lines. A text without a line
/// feed is one line.
pub proof fn lemma_lines_one_by_one(line: Seq<char>, rest: Seq<char>)
    requires
        forall|i: int| 0 <= i < line.len() ==> #[trigger] line[i] != '\n',
    ensures
        lines(line + seq!['\n'] + rest) == seq![without_return(line)] + lines(rest),
        line.len() > 0 ==> lines(line) == seq![line],
        lines(Seq::empty()) == Seq::<Seq<char>>::empty(),
{
    let whole = line + seq!['\n'] + rest;
    let n = line.len() as int;
    assert forall|i: int| 0 <= i < n implies !feed().contains(#[trigger] whole[i]) by {
        assert(whole[i] == line[i]);
    }
    assert(whole[n] == '\n');
    lemma_until(whole, feed(), n);
    assert(whole.take(n) =~= line);
    assert(whole.skip(n + 1) =~= rest);
    assert forall|i: int| 0 <= i < n implies !feed().contains(#[trigger] line[i]) by {}
    lemma_until(line, feed(), n);
}

/// The lines of a text, put together, are the text, if there is no carriage
/// return in it and it does not end in a line feed: no line is lost.
#[verifier::spinoff_prover]
#[verifier::rlimit(30)]
pub proof fn lemma_lines_put_together(text: Seq<char>)
    requires
        text.len() > 0,
        text.last() != '\n',
        forall|i: int| 0 <= i < text.len() ==> #[trigger] text[i] != '\r',
    ensures
        joined(lines(text), "\n"@) == text,
        lines(text).len() > 0,
    decreases text.len(),
{
    reveal_strlit("\n");
    lemma_until_bounds(text, feed());
    let n = until(text, feed()) as int;
    if n < text.len() {
        let line = text.take(n);
        let rest = text.skip(n + 1);
        assert(text[n] == '\n');
        assert(n < text.len() - 1);
        assert(rest.last() == text.last());
        assert forall|i: int| 0 <= i < rest.len() implies #[trigger] rest[i] != '\r' by {
            assert(rest[i] == text[n + 1 + i]);
        }
        lemma_lines_put_together(rest);
        let all = lines(text);
        assert(all == seq![line] + lines(rest)) by {
            assert forall|i: int| 0 <= i < n implies #[trigger] line[i] != '\n' by {
                assert(!feed().contains(text[i]));
            }
            if n > 0 {
                assert(line.last() == text[n - 1]);
            }
            lemma_lines_one_by_one(line, rest);
            assert(line + seq!['\n'] + rest =~= text);
        }
        assert(all.skip(1) =~= lines(rest));
        lemma_joined_front(all, "\n"@);
        assert(line + "\n"@ + rest =~= text);
    } else {
        assert(lines(text) == seq![text]);
    }
}

/// A number read from its decimal notation, with or without a sign, is that
/// number, and what is no number is not read as one.
pub proof fn lemma_numbers_read_back(n: u64, m: i32)
    ensures
        u64_value(decimal(n as nat)) == Some(n),
        u64_value(seq!['+'] + decimal(n as nat)) == Some(n),
        i32_value(signed_decimal(m as int)) == Some(m),
        u64_value(Seq::empty()) is None,
        i32_value(Seq::empty()) is None,
{
    lemma_decimal_reads_back(n as nat);
    let shown = decimal(n as nat);
    assert(is_digit(shown[0]));
    assert((seq!['+'] + shown).skip(1) =~= shown);
    if m >= 0 {
        lemma_decimal_reads_back(m as nat);
        assert(is_digit(decimal(m as nat)[0]));
    } else {
        let positive = decimal((0 - m) as nat);
        lemma_decimal_reads_back((0 - m) as nat);
        assert(signed_decimal(m as int) =~= seq!['-'] + positive);
        assert(signed_decimal(m as int).skip(1) =~= positive);
    }
}

/// What stands between two texts stands in what they make together.
pub proof fn lemma_text_within(before: Seq<char>, text: Seq<char>, after: Seq<char>)
    ensures
        has_text(before + text + after, text),
{
    let whole = before + text + after;
    let n = before.len() as int;
    assert(whole.subrange(n, n + text.len()) =~= text);
    assert(occurs_at(whole, text, n));
}

/// What stands in a text stands in every text that holds that one.
pub proof fn lemma_text_in_text(needle: Seq<char>, text: Seq<char>, whole: Seq<char>)
    requires
        has_text(text, needle),
        has_text(whole, text),
    ensures
        has_text(whole, needle),
{
    let a = choose|a: int| #[trigger] occurs_at(text, needle, a);
    let b = choose|b: int| #[trigger] occurs_at(whole, text, b);
    assert(whole.subrange(b + a, b + a + needle.len()) =~= whole.subrange(
        b,
        b + text.len(),
    ).subrange(a, a + needle.len()));
    assert(occurs_at(whole, needle, b + a));
}

/// A text takes the bytes that its characters take: those of ASCII one each,
/// others two to four.
pub proof fn lemma_bytes_add_up(text: Seq<char>, ch: char)
    ensures
        byte_length(text.push(ch)) == byte_length(text) + byte_length(seq![ch]),
        byte_length(seq![ch]) == (if (ch as u32) < 0x80 {
            1nat
        } else if (ch as u32) < 0x800 {
            2nat
        } else if (ch as u32) < 0x10000 {
            3nat
        } else {
            4nat
        }),
        byte_length(Seq::empty()) == 0,
{
    lemma_byte_length_push(text, ch);
    lemma_byte_length_push(Seq::empty(), ch);
    assert(Seq::<char>::empty().push(ch) =~= seq![ch]);
    assert(byte_length(Seq::empty()) == 0);
}

/// How often a character stands in a text is counted one by one.
pub proof fn lemma_characters_are_counted(text: Seq<char>, last: char, ch: char)
    ensures
        count_of(text.push(last), ch) == count_of(text, ch) + (if last == ch {
            1nat
        } else {
            0nat
        }),
        count_of(Seq::empty(), ch) == 0,
{
    assert(text.push(last).drop_last() =~= text);
}


} // verus!
