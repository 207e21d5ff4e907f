//! Text as sequences of characters: order, trimming and searching.

use vstd::prelude::*;
use vstd::string::*;

verus! {

/// `String::push` appends one character.
pub assume_specification[ String::push ](text: &mut String, c: char)
    ensures
        final(text)@ == old(text)@.push(c),
;

/// Equality of string slices (`str::eq`) compares their characters.
pub assume_specification[ <str as PartialEq>::eq ](a: &str, b: &str) -> (r: bool)
    ensures
        r == (a@ == b@),
;

/// The characters with the Unicode property White_Space.
pub open spec fn is_space(c: char) -> bool {
    let n = c as int;
    ||| 0x09 <= n <= 0x0D
    ||| n == 0x20 || n == 0x85 || n == 0xA0 || n == 0x1680
    ||| 0x2000 <= n <= 0x200A
    ||| n == 0x2028 || n == 0x2029 || n == 0x202F || n == 0x205F || n == 0x3000
}

/// `s` without its leading white space.
pub open spec fn trim_start(s: Seq<char>) -> Seq<char>
    decreases s.len(),
{
    if s.len() > 0 && is_space(s.first()) {
        trim_start(s.drop_first())
    } else {
        s
    }
}

/// `s` without its trailing white space.
pub open spec fn trim_end(s: Seq<char>) -> Seq<char>
    decreases s.len(),
{
    if s.len() > 0 && is_space(s.last()) {
        trim_end(s.drop_last())
    } else {
        s
    }
}

/// `s` without the white space at both ends.
pub open spec fn trimmed(s: Seq<char>) -> Seq<char> {
    trim_end(trim_start(s))
}

/// Lexicographic order by code point.
pub open spec fn text_le(a: Seq<char>, b: Seq<char>) -> bool
    decreases a.len(),
{
    if a.len() == 0 {
        true
    } else if b.len() == 0 {
        false
    } else {
        a[0] < b[0] || (a[0] == b[0] && text_le(a.drop_first(), b.drop_first()))
    }
}

/// The strict part of [`text_le`].
pub open spec fn text_lt(a: Seq<char>, b: Seq<char>) -> bool {
    text_le(a, b) && a != b
}

/// The characters of `text`, in order.
pub fn characters(text: &str) -> (chars: Vec<char>)
    ensures
        chars@ == text@,
{
    let mut chars: Vec<char> = Vec::new();
    for c in it: text.chars()
        invariant
            chars@ == it.seq().take(it.index() as int),
            it.seq() == text@,
    {
        chars.push(c);
    }
    chars
}

/// Whether `c` is white space.
fn is_space_char(c: char) -> (r: bool)
    ensures
        r == is_space(c),
{
    let n: u32 = c as u32;
    (0x09 <= n && n <= 0x0D) || n == 0x20 || n == 0x85 || n == 0xA0 || n == 0x1680 || (0x2000 <= n
        && n <= 0x200A) || n == 0x2028 || n == 0x2029 || n == 0x202F || n == 0x205F || n == 0x3000
}

/// `text` without the white space at both ends.
pub fn trim(text: &str) -> (r: String)
    ensures
        r@ == trimmed(text@),
{
    let chars = characters(text);
    let mut start: usize = 0;
    assert(chars@.skip(0) == text@);
    while start < chars.len() && is_space_char(chars[start])
        invariant
            start <= chars.len(),
            trim_start(text@) == trim_start(chars@.skip(start as int)),
        decreases chars.len() - start,
    {
        assert(chars@.skip(start as int).drop_first() == chars@.skip(start + 1));
        start += 1;
    }
    let ghost rest = chars@.skip(start as int);
    let mut end: usize = chars.len();
    assert(chars@.subrange(start as int, end as int) == rest);
    while end > start && is_space_char(chars[end - 1])
        invariant
            start <= end <= chars.len(),
            trim_end(rest) == trim_end(chars@.subrange(start as int, end as int)),
        decreases end,
    {
        assert(chars@.subrange(start as int, end as int).drop_last() == chars@.subrange(
            start as int,
            end - 1,
        ));
        end -= 1;
    }
    let mut r = String::new();
    let mut i: usize = start;
    while i < end
        invariant
            start <= i <= end <= chars.len(),
            r@ == chars@.subrange(start as int, i as int),
        decreases end - i,
    {
        r.push(chars[i]);
        i += 1;
        assert(r@ =~= chars@.subrange(start as int, i as int));
    }
    r
}

/// Whether `a` comes before `b`, or is `b`, in lexicographic order.
pub fn at_most(a: &str, b: &str) -> (r: bool)
    ensures
        r == text_le(a@, b@),
{
    let x = characters(a);
    let y = characters(b);
    let mut i: usize = 0;
    assert(x@.skip(0) == a@);
    assert(y@.skip(0) == b@);
    while i < x.len()
        invariant
            x@ == a@,
            y@ == b@,
            i <= x.len(),
            i <= y.len(),
            text_le(a@, b@) == text_le(x@.skip(i as int), y@.skip(i as int)),
        decreases x.len() - i,
    {
        if i == y.len() {
            return false;
        }
        if x[i] < y[i] {
            return true;
        }
        if x[i] != y[i] {
            return false;
        }
        proof {
            assert(x@.skip(i as int).drop_first() == x@.skip(i + 1));
            assert(y@.skip(i as int).drop_first() == y@.skip(i + 1));
        }
        i += 1;
    }
    true
}

/// The order on texts is reflexive.
pub proof fn text_order_is_reflexive(a: Seq<char>)
    ensures
        text_le(a, a),
    decreases a.len(),
{
    if a.len() > 0 {
        text_order_is_reflexive(a.drop_first());
    }
}

/// Two texts of which each is at most the other are the same text.
pub proof fn text_order_is_antisymmetric(a: Seq<char>, b: Seq<char>)
    requires
        text_le(a, b),
        text_le(b, a),
    ensures
        a == b,
    decreases a.len(),
{
    if a.len() > 0 && b.len() > 0 {
        text_order_is_antisymmetric(a.drop_first(), b.drop_first());
        assert(a == seq![a[0]] + a.drop_first());
        assert(b == seq![b[0]] + b.drop_first());
    } else {
        assert(a == b);
    }
}

/// The order on texts is transitive.
pub proof fn text_order_is_transitive(a: Seq<char>, b: Seq<char>, c: Seq<char>)
    requires
        text_le(a, b),
        text_le(b, c),
    ensures
        text_le(a, c),
    decreases a.len(),
{
    if a.len() > 0 && a[0] == b[0] && b[0] == c[0] {
        text_order_is_transitive(a.drop_first(), b.drop_first(), c.drop_first());
    }
}

/// Of two texts, one is at most the other.
pub proof fn text_order_is_total(a: Seq<char>, b: Seq<char>)
    ensures
        text_le(a, b) || text_le(b, a),
    decreases a.len(),
{
    if a.len() > 0 && b.len() > 0 && a[0] == b[0] {
        text_order_is_total(a.drop_first(), b.drop_first());
    }
}

/// A text that is not at most `b` is strictly above it.
pub(crate) proof fn lemma_not_le(a: Seq<char>, b: Seq<char>)
    requires
        !text_le(a, b),
    ensures
        text_lt(b, a),
{
    text_order_is_total(a, b);
    text_order_is_reflexive(a);
}

/// The strict order is transitive, also where one of the two steps is not strict.
pub(crate) proof fn lemma_lt_trans(a: Seq<char>, b: Seq<char>, c: Seq<char>)
    requires
        text_le(a, b),
        text_le(b, c),
        a != b || b != c,
    ensures
        text_lt(a, c),
{
    text_order_is_transitive(a, b, c);
    if a == c {
        text_order_is_antisymmetric(a, b);
    }
}

/// What is strictly above a text is not at most it.
pub(crate) proof fn lemma_lt_not_le(a: Seq<char>, b: Seq<char>)
    requires
        text_lt(a, b),
    ensures
        !text_le(b, a),
{
    if text_le(b, a) {
        text_order_is_antisymmetric(a, b);
    }
}

/// Trimming leaves no white space at either end.
pub proof fn trimmed_has_no_outer_space(s: Seq<char>)
    ensures
        trimmed(s).len() > 0 ==> !is_space(trimmed(s).first()) && !is_space(trimmed(s).last()),
{
    lemma_trim_start(s);
    lemma_trim_end(trim_start(s));
}

/// Trimming twice is trimming once.
pub proof fn trimming_is_idempotent(s: Seq<char>)
    ensures
        trimmed(trimmed(s)) == trimmed(s),
{
    trimmed_has_no_outer_space(s);
}

proof fn lemma_trim_start(s: Seq<char>)
    ensures
        trim_start(s).len() > 0 ==> !is_space(trim_start(s).first()),
    decreases s.len(),
{
    if s.len() > 0 && is_space(s.first()) {
        lemma_trim_start(s.drop_first());
    }
}

proof fn lemma_trim_end(s: Seq<char>)
    ensures
        trim_end(s).len() > 0 ==> !is_space(trim_end(s).last()) && trim_end(s).first() == s.first(),
    decreases s.len(),
{
    if s.len() > 0 && is_space(s.last()) {
        lemma_trim_end(s.drop_last());
    }
}

/// Whether `tag` stands in `s` at position `i`.
pub open spec fn occurs_at(s: Seq<char>, tag: Seq<char>, i: int) -> bool {
    0 <= i && i + tag.len() <= s.len() && s.subrange(i, i + tag.len()) == tag
}

/// Whether `tag` stands somewhere in `s`.
pub open spec fn occurs(s: Seq<char>, tag: Seq<char>) -> bool {
    exists|i: int| occurs_at(s, tag, i)
}

/// `s` without the occurrences of `tag` that a scan from the left finds, each
/// search going on behind the occurrence before it.
pub open spec fn without(s: Seq<char>, tag: Seq<char>) -> Seq<char>
    decreases s.len(),
{
    if s.len() == 0 || tag.len() == 0 {
        s
    } else if occurs_at(s, tag, 0) {
        without(s.skip(tag.len() as int), tag)
    } else {
        seq![s[0]] + without(s.drop_first(), tag)
    }
}

/// Whether `tag` stands in `chars` at position `at`.
fn stands_at(chars: &Vec<char>, tag: &Vec<char>, at: usize) -> (r: bool)
    requires
        at <= chars.len(),
    ensures
        r == occurs_at(chars@, tag@, at as int),
{
    if tag.len() > chars.len() - at {
        return false;
    }
    let mut j: usize = 0;
    while j < tag.len()
        invariant
            at + tag.len() <= chars.len(),
            j <= tag.len(),
            forall|k: int| 0 <= k < j ==> chars@[at + k] == #[trigger] tag@[k],
        decreases tag.len() - j,
    {
        if chars[at + j] != tag[j] {
            assert(chars@.subrange(at as int, at + tag.len())[j as int] != tag@[j as int]);
            return false;
        }
        j += 1;
    }
    assert(chars@.subrange(at as int, at + tag.len()) == tag@);
    true
}

/// Whether `tag` stands somewhere in `text`.
pub fn contains(text: &str, tag: &str) -> (r: bool)
    ensures
        r == occurs(text@, tag@),
{
    let chars = characters(text);
    let tag_chars = characters(tag);
    let mut i: usize = 0;
    loop
        invariant
            chars@ == text@,
            tag_chars@ == tag@,
            i <= chars.len(),
            forall|k: int| 0 <= k < i ==> !occurs_at(text@, tag@, k),
        decreases chars.len() - i,
    {
        if stands_at(&chars, &tag_chars, i) {
            return true;
        }
        if i == chars.len() {
            return false;
        }
        i += 1;
    }
}

/// `text` with every occurrence of `tag` taken out.
pub fn remove_all(text: &str, tag: &str) -> (r: String)
    requires
        tag@.len() > 0,
    ensures
        r@ == without(text@, tag@),
{
    let chars = characters(text);
    let tag_chars = characters(tag);
    let mut rest = String::new();
    let mut i: usize = 0;
    assert(chars@.skip(0) == text@);
    while i < chars.len()
        invariant
            chars@ == text@,
            tag_chars@ == tag@,
            tag@.len() > 0,
            i <= chars.len(),
            without(text@, tag@) == rest@ + without(chars@.skip(i as int), tag@),
        decreases chars.len() - i,
    {
        let ghost tail = chars@.skip(i as int);
        if stands_at(&chars, &tag_chars, i) {
            proof {
                assert(tail.subrange(0, tag@.len() as int) == chars@.subrange(
                    i as int,
                    i + tag@.len(),
                ));
                assert(occurs_at(tail, tag@, 0));
                assert(tail.skip(tag@.len() as int) == chars@.skip(i + tag@.len()));
            }
            i += tag_chars.len();
        } else {
            proof {
                if occurs_at(tail, tag@, 0) {
                    assert(tail.subrange(0, tag@.len() as int) == chars@.subrange(
                        i as int,
                        i + tag@.len(),
                    ));
                }
                assert(tail.drop_first() == chars@.skip(i + 1));
                let after = without(chars@.skip(i + 1), tag@);
                let c = chars@[i as int];
                assert(rest@ + (seq![c] + after) == rest@.push(c) + after);
            }
            rest.push(chars[i]);
            i += 1;
        }
    }
    assert(chars@.skip(i as int).len() == 0);
    rest
}

/// A text in which `tag` does not occur is left as it is.
pub proof fn removing_an_absent_tag_changes_nothing(s: Seq<char>, tag: Seq<char>)
    requires
        !occurs(s, tag),
    ensures
        without(s, tag) == s,
    decreases s.len(),
{
    if s.len() > 0 && tag.len() > 0 {
        assert(!occurs_at(s, tag, 0));
        let t = s.drop_first();
        assert forall|i: int| !occurs_at(t, tag, i) by {
            if occurs_at(t, tag, i) {
                assert(t.subrange(i, i + tag.len()) == s.subrange(i + 1, i + 1 + tag.len()));
                assert(occurs_at(s, tag, i + 1));
            }
        }
        removing_an_absent_tag_changes_nothing(t, tag);
        assert(s == seq![s[0]] + t);
    }
}

/// Where `tag` occurs, taking it out makes the text shorter by at least one tag.
pub proof fn removing_a_tag_shortens(s: Seq<char>, tag: Seq<char>)
    requires
        tag.len() > 0,
    ensures
        without(s, tag).len() <= s.len(),
        occurs(s, tag) ==> without(s, tag).len() + tag.len() <= s.len(),
    decreases s.len(),
{
    if s.len() > 0 {
        if occurs_at(s, tag, 0) {
            removing_a_tag_shortens(s.skip(tag.len() as int), tag);
        } else {
            let t = s.drop_first();
            removing_a_tag_shortens(t, tag);
            if occurs(s, tag) {
                let i = choose|i: int| occurs_at(s, tag, i);
                assert(t.subrange(i - 1, i - 1 + tag.len()) == s.subrange(i, i + tag.len()));
                assert(occurs_at(t, tag, i - 1));
            }
        }
    }
}

/// The text of `s`, where there is one.
pub open spec fn opt_text(s: Option<String>) -> Option<Seq<char>> {
    match s {
        Some(t) => Some(t@),
        None => None,
    }
}

/// The text of `s`, where there is one.
pub open spec fn opt_str(s: Option<&str>) -> Option<Seq<char>> {
    match s {
        Some(t) => Some(t@),
        None => None,
    }
}

/// `text`, or `default` where there is none.
pub open spec fn text_or(text: Option<Seq<char>>, default: Seq<char>) -> Seq<char> {
    match text {
        Some(t) => t,
        None => default,
    }
}

/// The texts of `v`, in order.
pub open spec fn texts(v: Seq<String>) -> Seq<Seq<char>> {
    v.map_values(|s: String| s@)
}

/// Whether the texts of `s` stand in strictly ascending order, so that none occurs twice.
pub open spec fn ascending(s: Seq<Seq<char>>) -> bool {
    forall|i: int, j: int| 0 <= i < j < s.len() ==> text_lt(#[trigger] s[i], #[trigger] s[j])
}

/// The pairs of texts of `v`, in order.
pub open spec fn pairs(v: Seq<(String, String)>) -> Seq<(Seq<char>, Seq<char>)> {
    v.map_values(|p: (String, String)| (p.0@, p.1@))
}

/// Puts `item` in its place among `items`, unless it is there already.
fn place(items: &mut Vec<String>, item: String)
    requires
        ascending(texts(old(items)@)),
    ensures
        ascending(texts(final(items)@)),
        texts(final(items)@).to_set() == texts(old(items)@).to_set().insert(item@),
{
    let ghost before = texts(items@);
    let mut i: usize = 0;
    while i < items.len() && !at_most(item.as_str(), items[i].as_str())
        invariant
            i <= items.len(),
            texts(items@) == before,
            forall|k: int| 0 <= k < i ==> !text_le(item@, #[trigger] before[k]),
        decreases items.len() - i,
    {
        i += 1;
    }
    if i < items.len() && items[i].as_str().eq(item.as_str()) {
        proof {
            assert(before[i as int] == item@);
            assert(before.to_set() =~= before.to_set().insert(item@));
        }
        return;
    }
    items.insert(i, item);
    proof {
        let after = texts(items@);
        assert(after == before.insert(i as int, item@));
        assert forall|a: int, b: int| 0 <= a < b < after.len() implies text_lt(
            #[trigger] after[a],
            #[trigger] after[b],
        ) by {
            if b < i {
                assert(text_lt(before[a], before[b]));
            } else if b == i {
                lemma_not_le(item@, before[a]);
            } else if a == i {
                if b - 1 > i {
                    assert(text_lt(before[i as int], before[b - 1]));
                    lemma_lt_trans(item@, before[i as int], before[b - 1]);
                }
            } else if a < i {
                assert(text_lt(before[a], before[b - 1]));
            } else {
                assert(text_lt(before[a - 1], before[b - 1]));
            }
        }
        assert forall|t: Seq<char>| after.to_set().contains(t) == before.to_set().insert(
            item@,
        ).contains(t) by {
            if before.contains(t) {
                let k = choose|k: int| 0 <= k < before.len() && before[k] == t;
                assert(after[if k < i { k } else { k + 1 }] == t);
            }
            if after.contains(t) && t != item@ {
                let k = choose|k: int| 0 <= k < after.len() && after[k] == t;
                assert(before[if k < i { k } else { k - 1 }] == t);
            }
            assert(after[i as int] == item@);
        }
        assert(after.to_set() =~= before.to_set().insert(item@));
    }
}

/// The texts that occur in `items`, each once, in ascending order.
pub fn sorted_without_repeats(items: Vec<String>) -> (r: Vec<String>)
    ensures
        ascending(texts(r@)),
        texts(r@).to_set() == texts(items@).to_set(),
{
    let mut sorted: Vec<String> = Vec::new();
    let mut i: usize = 0;
    assert(texts(sorted@).to_set() =~= texts(items@.take(0)).to_set());
    while i < items.len()
        invariant
            i <= items.len(),
            ascending(texts(sorted@)),
            texts(sorted@).to_set() == texts(items@.take(i as int)).to_set(),
        decreases items.len() - i,
    {
        place(&mut sorted, items[i].clone());
        proof {
            let head = texts(items@.take(i as int));
            let next = texts(items@.take(i + 1));
            assert(next == head.push(items@[i as int]@));
            lemma_push_to_set(head, items@[i as int]@);
        }
        i += 1;
    }
    assert(items@.take(i as int) == items@);
    sorted
}

proof fn lemma_push_to_set(s: Seq<Seq<char>>, t: Seq<char>)
    ensures
        s.push(t).to_set() == s.to_set().insert(t),
{
    let p = s.push(t);
    assert forall|x: Seq<char>| p.to_set().contains(x) == s.to_set().insert(t).contains(x) by {
        if s.contains(x) {
            let k = choose|k: int| 0 <= k < s.len() && s[k] == x;
            assert(p[k] == x);
        }
        assert(p[s.len() as int] == t);
        if p.contains(x) && x != t {
            let k = choose|k: int| 0 <= k < p.len() && p[k] == x;
            assert(s[k] == x);
        }
    }
    assert(p.to_set() =~= s.to_set().insert(t));
}

/// An ascending sequence is determined by the set of its texts.
pub proof fn ascending_is_determined_by_its_texts(a: Seq<Seq<char>>, b: Seq<Seq<char>>)
    requires
        ascending(a),
        ascending(b),
        a.to_set() == b.to_set(),
    ensures
        a == b,
    decreases a.len(),
{
    if a.len() == 0 {
        if b.len() > 0 {
            assert(b.to_set().contains(b[0]));
            assert(a.contains(b[0]));
        }
        assert(a == b);
    } else {
        assert(a.to_set().contains(a[0]));
        assert(b.contains(a[0]));
        let i = choose|i: int| 0 <= i < b.len() && b[i] == a[0];
        assert(b.to_set().contains(b[0]));
        assert(a.contains(b[0]));
        let j = choose|j: int| 0 <= j < a.len() && a[j] == b[0];
        if i > 0 && j > 0 {
            assert(text_lt(b[0], b[i]));
            assert(text_lt(a[0], a[j]));
            text_order_is_antisymmetric(a[0], b[0]);
        }
        assert(a[0] == b[0]);
        let ra = a.drop_first();
        let rb = b.drop_first();
        assert forall|i: int, j: int| 0 <= i < j < ra.len() implies text_lt(
            #[trigger] ra[i],
            #[trigger] ra[j],
        ) by {
            assert(text_lt(a[i + 1], a[j + 1]));
        }
        assert forall|i: int, j: int| 0 <= i < j < rb.len() implies text_lt(
            #[trigger] rb[i],
            #[trigger] rb[j],
        ) by {
            assert(text_lt(b[i + 1], b[j + 1]));
        }
        assert forall|t: Seq<char>| ra.to_set().contains(t) == rb.to_set().contains(t) by {
            if ra.contains(t) {
                let k = choose|k: int| 0 <= k < ra.len() && ra[k] == t;
                assert(a[k + 1] == t);
                assert(text_lt(a[0], a[k + 1]));
                assert(a.to_set().contains(t));
                assert(b.contains(t));
                let m = choose|m: int| 0 <= m < b.len() && b[m] == t;
                assert(rb[m - 1] == t);
            }
            if rb.contains(t) {
                let k = choose|k: int| 0 <= k < rb.len() && rb[k] == t;
                assert(b[k + 1] == t);
                assert(text_lt(b[0], b[k + 1]));
                assert(b.to_set().contains(t));
                assert(a.contains(t));
                let m = choose|m: int| 0 <= m < a.len() && a[m] == t;
                assert(ra[m - 1] == t);
            }
        }
        assert(ra.to_set() =~= rb.to_set());
        ascending_is_determined_by_its_texts(ra, rb);
        assert(a == seq![a[0]] + ra);
        assert(b == seq![b[0]] + rb);
    }
}

/// The text before the first occurrence of `tag` is kept, and the search goes on behind
/// that occurrence.
pub proof fn removal_goes_from_tag_to_tag(s: Seq<char>, tag: Seq<char>, i: int)
    requires
        tag.len() > 0,
        occurs_at(s, tag, i),
        forall|k: int| 0 <= k < i ==> !occurs_at(s, tag, k),
    ensures
        without(s, tag) == s.take(i) + without(s.skip(i + tag.len()), tag),
    decreases i,
{
    if i == 0 {
        assert(s.take(0) + without(s.skip(tag.len() as int), tag) =~= without(
            s.skip(tag.len() as int),
            tag,
        ));
    } else {
        let t = s.drop_first();
        assert(!occurs_at(s, tag, 0));
        assert(t.subrange(i - 1, i - 1 + tag.len()) =~= s.subrange(i, i + tag.len()));
        assert forall|k: int| 0 <= k < i - 1 implies !occurs_at(t, tag, k) by {
            if occurs_at(t, tag, k) {
                assert(t.subrange(k, k + tag.len()) =~= s.subrange(k + 1, k + 1 + tag.len()));
                assert(occurs_at(s, tag, k + 1));
            }
        }
        removal_goes_from_tag_to_tag(t, tag, i - 1);
        assert(t.skip(i - 1 + tag.len()) =~= s.skip(i + tag.len()));
        let rest = without(s.skip(i + tag.len()), tag);
        assert(seq![s[0]] + (t.take(i - 1) + rest) =~= s.take(i) + rest);
    }
}

/// Trimming makes no text longer.
pub proof fn trimming_shortens(s: Seq<char>)
    ensures
        trimmed(s).len() <= s.len(),
{
    lemma_trim_start_len(s);
    lemma_trim_end_len(trim_start(s));
}

proof fn lemma_trim_start_len(s: Seq<char>)
    ensures
        trim_start(s).len() <= s.len(),
    decreases s.len(),
{
    if s.len() > 0 && is_space(s.first()) {
        lemma_trim_start_len(s.drop_first());
    }
}

proof fn lemma_trim_end_len(s: Seq<char>)
    ensures
        trim_end(s).len() <= s.len(),
    decreases s.len(),
{
    if s.len() > 0 && is_space(s.last()) {
        lemma_trim_end_len(s.drop_last());
    }
}

/// Each text of a list counts, in its place and whole.
pub proof fn lists_are_viewed_item_by_item(v: Seq<String>, p: Seq<(String, String)>, i: int)
    ensures
        texts(v).len() == v.len(),
        0 <= i < v.len() ==> texts(v)[i] == v[i]@,
        pairs(p).len() == p.len(),
        0 <= i < p.len() ==> pairs(p)[i] == (p[i].0@, p[i].1@),
{
}

/// A text that is there counts, and a default counts only where there is none.
pub proof fn texts_go_before_defaults(s: String, t: &str, text: Seq<char>, default: Seq<char>)
    ensures
        opt_text(Some(s)) == Some(s@),
        opt_text(None) is None,
        opt_str(Some(t)) == Some(t@),
        opt_str(None) is None,
        text_or(Some(text), default) == text,
        text_or(None, default) == default,
{
}

/// White space is what has the Unicode property White_Space.
pub proof fn white_space_is_that_of_unicode(c: char)
    ensures
        is_space(c) <==> seq![
            '\u{9}', '\u{A}', '\u{B}', '\u{C}', '\u{D}', '\u{20}', '\u{85}', '\u{A0}', '\u{1680}',
            '\u{2000}', '\u{2001}', '\u{2002}', '\u{2003}', '\u{2004}', '\u{2005}', '\u{2006}',
            '\u{2007}', '\u{2008}', '\u{2009}', '\u{200A}', '\u{2028}', '\u{2029}', '\u{202F}',
            '\u{205F}', '\u{3000}',
        ].contains(c),
{
    let all = seq![
        '\u{9}', '\u{A}', '\u{B}', '\u{C}', '\u{D}', '\u{20}', '\u{85}', '\u{A0}', '\u{1680}',
        '\u{2000}', '\u{2001}', '\u{2002}', '\u{2003}', '\u{2004}', '\u{2005}', '\u{2006}',
        '\u{2007}', '\u{2008}', '\u{2009}', '\u{200A}', '\u{2028}', '\u{2029}', '\u{202F}',
        '\u{205F}', '\u{3000}',
    ];
    let n = c as int;
    if is_space(c) {
        let i = if n <= 0x0D { n - 9 } else if n == 0x20 { 5 } else if n == 0x85 { 6 } else if n
            == 0xA0 { 7 } else if n == 0x1680 { 8 } else if n <= 0x200A { n - 0x2000 + 9 } else if n
            == 0x2028 { 20 } else if n == 0x2029 { 21 } else if n == 0x202F { 22 } else if n
            == 0x205F { 23 } else { 24int };
        assert(all[i] == c);
    }
}

proof fn lemma_trim_start_padding(left: Seq<char>, rest: Seq<char>)
    requires
        forall|i: int| 0 <= i < left.len() ==> is_space(#[trigger] left[i]),
    ensures
        trim_start(left + rest) == trim_start(rest),
    decreases left.len(),
{
    if left.len() == 0 {
        assert(left + rest =~= rest);
    } else {
        assert(is_space(left[0]));
        assert((left + rest).drop_first() =~= left.drop_first() + rest);
        lemma_trim_start_padding(left.drop_first(), rest);
    }
}

proof fn lemma_trim_end_padding(rest: Seq<char>, right: Seq<char>)
    requires
        forall|i: int| 0 <= i < right.len() ==> is_space(#[trigger] right[i]),
    ensures
        trim_end(rest + right) == trim_end(rest),
    decreases right.len(),
{
    if right.len() == 0 {
        assert(rest + right =~= rest);
    } else {
        assert(is_space(right[right.len() - 1]));
        assert((rest + right).drop_last() =~= rest + right.drop_last());
        lemma_trim_end_padding(rest, right.drop_last());
    }
}

/// Trimming takes off the white space at both ends, all of it, and nothing else.
pub proof fn trimming_takes_off_the_padding(left: Seq<char>, core: Seq<char>, right: Seq<char>)
    requires
        forall|i: int| 0 <= i < left.len() ==> is_space(#[trigger] left[i]),
        forall|i: int| 0 <= i < right.len() ==> is_space(#[trigger] right[i]),
        core.len() > 0 ==> !is_space(core.first()) && !is_space(core.last()),
    ensures
        trimmed(left + core + right) == core,
{
    assert(left + core + right =~= left + (core + right));
    lemma_trim_start_padding(left, core + right);
    if core.len() == 0 {
        assert(core + right =~= right + core);
        lemma_trim_start_padding(right, core);
        assert(trim_end(core) == core);
    } else {
        assert((core + right).first() == core.first());
        lemma_trim_end_padding(core, right);
    }
}

/// The order on texts goes by the first character in which they differ, wherever that is; a
/// text comes before the longer ones that begin with it.
pub proof fn text_order_goes_by_the_first_difference(
    x: Seq<char>,
    c: char,
    a: Seq<char>,
    d: char,
    b: Seq<char>,
)
    requires
        c < d,
    ensures
        text_lt(x.push(c) + a, x.push(d) + b),
        !text_le(x.push(d) + b, x.push(c) + a),
        text_lt(x, x.push(c) + a),
        !text_le(x.push(c) + a, x),
        text_le(x, x) && !text_lt(x, x),
    decreases x.len(),
{
    let p = x.push(c) + a;
    let q = x.push(d) + b;
    assert(p[x.len() as int] == c && q[x.len() as int] == d);
    if x.len() > 0 {
        text_order_goes_by_the_first_difference(x.drop_first(), c, a, d, b);
        assert(p.drop_first() =~= x.drop_first().push(c) + a);
        assert(q.drop_first() =~= x.drop_first().push(d) + b);
    }
    text_order_is_reflexive(x);
}

/// A tag occurs in a text exactly where the text is made of something before it, the tag and
/// something behind it.
pub proof fn a_tag_occurs_where_it_stands(before: Seq<char>, tag: Seq<char>, behind: Seq<char>)
    ensures
        occurs(before + tag + behind, tag),
{
    let s = before + tag + behind;
    let i = before.len() as int;
    assert(s.subrange(i, i + tag.len()) =~= tag);
    assert(occurs_at(s, tag, i));
}

/// A text in which a tag occurs is made of something before it, the tag and something behind
/// it.
pub proof fn texts_hold_the_tags_that_occur(s: Seq<char>, tag: Seq<char>)
    requires
        occurs(s, tag),
    ensures
        exists|before: Seq<char>, behind: Seq<char>| s == #[trigger] (before + tag + behind),
{
    let i = choose|i: int| occurs_at(s, tag, i);
    let before = s.take(i);
    let behind = s.skip(i + tag.len());
    assert(s =~= before + tag + behind) by {
        assert(s.subrange(i, i + tag.len()) == tag);
        assert forall|k: int| 0 <= k < tag.len() implies s[i + k] == #[trigger] tag[k] by {
            assert(s.subrange(i, i + tag.len())[k] == tag[k]);
        }
    }
}

/// Taking a tag out keeps what stands before its first occurrence, and goes on behind it.
pub proof fn removal_keeps_the_rest(before: Seq<char>, tag: Seq<char>, behind: Seq<char>)
    requires
        tag.len() > 0,
        !occurs((before + tag).drop_last(), tag),
    ensures
        without(before + tag + behind, tag) == before + without(behind, tag),
{
    let s = before + tag + behind;
    let head = (before + tag).drop_last();
    let i = before.len() as int;
    assert(s.subrange(i, i + tag.len()) =~= tag);
    assert(occurs_at(s, tag, i));
    assert forall|k: int| 0 <= k < i implies !occurs_at(s, tag, k) by {
        if occurs_at(s, tag, k) {
            assert(head.subrange(k, k + tag.len()) =~= s.subrange(k, k + tag.len()));
            assert(occurs_at(head, tag, k));
        }
    }
    removal_goes_from_tag_to_tag(s, tag, i);
    assert(s.take(i) =~= before);
    assert(s.skip(i + tag.len()) =~= behind);
}

} // verus!
