//! Character-level text handling shared by the listing readers: splitting at a
//! separator, trimming white space, and writing lists in debug form.

use vstd::prelude::*;

verus! {

/// `String::push`: appends the character `c` to `s`.
#[verifier::external_body]
pub(crate) fn push_char(s: &mut String, c: char)
    ensures
        final(s)@ == old(s)@.push(c),
{
    s.push(c);
}

/// What `str`'s `Debug` writes for a text: the text in double quotes, with the
/// characters that need it escaped. The escaping follows the standard library's
/// Unicode tables and is not spelled out here.
pub uninterp spec fn str_debug_text(text: Seq<char>) -> Seq<char>;

/// `<str as Debug>::fmt` through `format!("{:?}")`: the result is
/// `str_debug_text` of the text; nothing more of it is stated.
#[verifier::external_body]
pub(crate) fn debug_quoted(text: &str) -> (r: String)
    ensures
        r@ == str_debug_text(text@),
{
    format!("{:?}", text)
}

/// The characters of `text`, in order.
pub fn chars_of(text: &str) -> (r: Vec<char>)
    ensures
        r@ == text@,
{
    let mut out: Vec<char> = Vec::new();
    for c in it: text.chars()
        invariant
            it.seq() == text@,
            out@ == it.seq().take(it.index() as int),
    {
        out.push(c);
        assert(out@ =~= it.seq().take(it.index() + 1));
    }
    assert(out@ =~= text@);
    out
}

/// A character with the Unicode `White_Space` property, as `char::is_whitespace`
/// and `str::trim` understand it.
pub open spec fn is_white_space(c: char) -> bool {
    ||| ('\u{9}' <= c && c <= '\u{d}')
    ||| c == ' '
    ||| c == '\u{85}'
    ||| c == '\u{a0}'
    ||| c == '\u{1680}'
    ||| ('\u{2000}' <= c && c <= '\u{200a}')
    ||| c == '\u{2028}'
    ||| c == '\u{2029}'
    ||| c == '\u{202f}'
    ||| c == '\u{205f}'
    ||| c == '\u{3000}'
}

/// Tells whether `c` has the Unicode `White_Space` property.
pub fn white_space(c: char) -> (r: bool)
    ensures
        r == is_white_space(c),
{
    ('\u{9}' <= c && c <= '\u{d}') || c == ' ' || c == '\u{85}' || c == '\u{a0}' || c
        == '\u{1680}' || ('\u{2000}' <= c && c <= '\u{200a}') || c == '\u{2028}' || c
        == '\u{2029}' || c == '\u{202f}' || c == '\u{205f}' || c == '\u{3000}'
}

/// `s` without its leading white space.
pub open spec fn trim_front(s: Seq<char>) -> Seq<char>
    decreases s.len(),
{
    if s.len() > 0 && is_white_space(s[0]) {
        trim_front(s.drop_first())
    } else {
        s
    }
}

/// `s` without its trailing white space.
pub open spec fn trim_back(s: Seq<char>) -> Seq<char>
    decreases s.len(),
{
    if s.len() > 0 && is_white_space(s.last()) {
        trim_back(s.drop_last())
    } else {
        s
    }
}

/// `s` without leading and trailing white space, as `str::trim` gives it.
pub open spec fn trimmed(s: Seq<char>) -> Seq<char> {
    trim_back(trim_front(s))
}

/// Removes leading and trailing white space, as `str::trim` does.
pub fn trim(text: &str) -> (r: String)
    ensures
        r@ == trimmed(text@),
{
    let cs = chars_of(text);
    let n = cs.len();
    let mut a: usize = 0;
    assert(text@.subrange(0, n as int) =~= text@);
    while a < n && white_space(cs[a])
        invariant
            a <= n,
            n == text@.len(),
            cs@ == text@,
            trim_front(text@) == trim_front(text@.subrange(a as int, n as int)),
        decreases n - a,
    {
        let ghost t = text@.subrange(a as int, n as int);
        assert(t.drop_first() =~= text@.subrange(a + 1, n as int));
        a = a + 1;
    }
    let ghost front = text@.subrange(a as int, n as int);
    assert(trim_front(text@) == front) by {
        if a < n {
            assert(front[0] == text@[a as int]);
        }
    }
    let mut b: usize = n;
    assert(front.subrange(0, (b - a) as int) =~= front);
    while b > a && white_space(cs[b - 1])
        invariant
            a <= b <= n,
            n == text@.len(),
            cs@ == text@,
            front == text@.subrange(a as int, n as int),
            trim_back(front) == trim_back(text@.subrange(a as int, b as int)),
        decreases b - a,
    {
        let ghost t = text@.subrange(a as int, b as int);
        assert(t.drop_last() =~= text@.subrange(a as int, b - 1));
        b = b - 1;
    }
    let ghost back = text@.subrange(a as int, b as int);
    assert(trim_back(front) == back) by {
        if b > a {
            assert(back.last() == text@[b - 1]);
        }
    }
    let piece = text.substring_char(a, b);
    String::from_str(piece)
}

/// The pieces of `s` between occurrences of `sep`, as `str::split` with a
/// character gives them: one more piece than there are separators, each piece
/// possibly empty.
pub open spec fn split_on(s: Seq<char>, sep: char) -> Seq<Seq<char>>
    decreases s.len(),
{
    if s.len() == 0 {
        seq![Seq::<char>::empty()]
    } else {
        let rest = split_on(s.drop_last(), sep);
        if s.last() == sep {
            rest.push(Seq::<char>::empty())
        } else {
            rest.update(rest.len() - 1, rest.last().push(s.last()))
        }
    }
}

/// The pieces `ps` written one after the other with `sep` between each two.
pub open spec fn joined(ps: Seq<Seq<char>>, sep: Seq<char>) -> Seq<char>
    decreases ps.len(),
{
    if ps.len() == 0 {
        Seq::<char>::empty()
    } else if ps.len() == 1 {
        ps[0]
    } else {
        joined(ps.drop_last(), sep) + sep + ps.last()
    }
}

/// The texts held in a vector of strings.
pub open spec fn texts(v: Seq<String>) -> Seq<Seq<char>> {
    v.map_values(|p: String| p@)
}

proof fn lemma_split_nonempty(s: Seq<char>, sep: char)
    ensures
        split_on(s, sep).len() >= 1,
    decreases s.len(),
{
    if s.len() > 0 {
        lemma_split_nonempty(s.drop_last(), sep);
    }
}

proof fn lemma_joined_extend_last(ps: Seq<Seq<char>>, sep: Seq<char>, x: char)
    requires
        ps.len() >= 1,
    ensures
        joined(ps.update(ps.len() - 1, ps.last().push(x)), sep) == joined(ps, sep).push(x),
{
    let qs = ps.update(ps.len() - 1, ps.last().push(x));
    if ps.len() == 1 {
        assert(qs[0] == ps[0].push(x));
    } else {
        assert(qs.drop_last() =~= ps.drop_last());
        assert(qs.last() == ps.last().push(x));
        assert(joined(qs, sep) =~= joined(ps, sep).push(x));
    }
}

/// Splitting a text at a separator and joining the pieces back with that
/// separator gives the text again, and no piece holds the separator.
pub proof fn lemma_split_join(s: Seq<char>, sep: char)
    ensures
        joined(split_on(s, sep), seq![sep]) == s,
        forall|k: int|
            0 <= k < split_on(s, sep).len() ==> !(#[trigger] split_on(s, sep)[k]).contains(sep),
    decreases s.len(),
{
    if s.len() > 0 {
        let pre = s.drop_last();
        let x = s.last();
        lemma_split_join(pre, sep);
        lemma_split_nonempty(pre, sep);
        let rest = split_on(pre, sep);
        if x == sep {
            let ps = rest.push(Seq::<char>::empty());
            assert(ps.drop_last() =~= rest);
            assert(joined(ps, seq![sep]) =~= s);
            assert forall|k: int| 0 <= k < ps.len() implies !(#[trigger] ps[k]).contains(sep) by {
                if k < rest.len() {
                    assert(ps[k] == rest[k]);
                }
            }
        } else {
            lemma_joined_extend_last(rest, seq![sep], x);
            let ps = rest.update(rest.len() - 1, rest.last().push(x));
            assert(joined(ps, seq![sep]) =~= s);
            assert forall|k: int| 0 <= k < ps.len() implies !(#[trigger] ps[k]).contains(sep) by {
                if k < rest.len() - 1 {
                    assert(ps[k] == rest[k]);
                } else {
                    let last = rest.last();
                    assert(!rest[rest.len() - 1].contains(sep));
                    if ps[k].contains(sep) {
                        let j = choose|j: int| 0 <= j < ps[k].len() && ps[k][j] == sep;
                        if j < last.len() {
                            assert(last[j] == sep);
                        }
                    }
                }
            }
        }
    }
}

/// Splits `text` at every occurrence of `sep`, as `str::split` does.
pub fn split_at_char(text: &str, sep: char) -> (r: Vec<String>)
    ensures
        texts(r@) == split_on(text@, sep),
{
    let cs = chars_of(text);
    let n = cs.len();
    let mut pieces: Vec<String> = Vec::new();
    let mut current = String::new();
    let mut i: usize = 0;
    assert(text@.subrange(0, 0) =~= Seq::<char>::empty());
    assert(texts(pieces@).push(current@) =~= split_on(Seq::<char>::empty(), sep));
    while i < n
        invariant
            i <= n,
            n == text@.len(),
            cs@ == text@,
            texts(pieces@).push(current@) == split_on(text@.subrange(0, i as int), sep),
        decreases n - i,
    {
        let c = cs[i];
        let ghost pre = text@.subrange(0, i as int);
        let ghost now = text@.subrange(0, i + 1);
        assert(now.drop_last() =~= pre);
        assert(now.last() == c);
        if c == sep {
            let done = current;
            pieces.push(done);
            current = String::new();
            assert(texts(pieces@).push(current@) =~= split_on(pre, sep).push(
                Seq::<char>::empty(),
            ));
        } else {
            let ghost before = texts(pieces@).push(current@);
            push_char(&mut current, c);
            assert(texts(pieces@).push(current@) =~= before.update(
                before.len() - 1,
                before.last().push(c),
            ));
        }
        i = i + 1;
    }
    pieces.push(current);
    assert(text@.subrange(0, n as int) =~= text@);
    assert(texts(pieces@) =~= split_on(text@, sep));
    pieces
}

/// The chapter fields of a reading-progress text such as `12 / 340`: the text
/// split at every `/`, each piece trimmed of white space.
pub open spec fn chapter_fields_of(text: Seq<char>) -> Seq<Seq<char>> {
    split_on(text, '/').map_values(|p: Seq<char>| trimmed(p))
}

proof fn lemma_trim_front(s: Seq<char>)
    ensures
        trim_front(s) == s.subrange(s.len() - trim_front(s).len(), s.len() as int),
        trim_front(s).len() <= s.len(),
        trim_front(s).len() > 0 ==> !is_white_space(trim_front(s)[0]),
    decreases s.len(),
{
    if s.len() > 0 && is_white_space(s[0]) {
        lemma_trim_front(s.drop_first());
        assert(s.drop_first().subrange(
            s.drop_first().len() - trim_front(s).len(),
            s.drop_first().len() as int,
        ) =~= s.subrange(s.len() - trim_front(s).len(), s.len() as int));
    } else {
        assert(s.subrange(0, s.len() as int) =~= s);
    }
}

proof fn lemma_trim_back(s: Seq<char>)
    ensures
        trim_back(s) == s.subrange(0, trim_back(s).len() as int),
        trim_back(s).len() <= s.len(),
        trim_back(s).len() > 0 ==> !is_white_space(trim_back(s).last()),
    decreases s.len(),
{
    if s.len() > 0 && is_white_space(s.last()) {
        lemma_trim_back(s.drop_last());
        assert(s.drop_last().subrange(0, trim_back(s).len() as int) =~= s.subrange(
            0,
            trim_back(s).len() as int,
        ));
    } else {
        assert(s.subrange(0, s.len() as int) =~= s);
    }
}

/// Trimming keeps a stretch of the text, which neither starts nor ends with
/// white space.
pub proof fn lemma_trimmed_clean(s: Seq<char>)
    ensures
        exists|a: int, b: int| 0 <= a <= b <= s.len() && trimmed(s) == s.subrange(a, b),
        trimmed(s).len() > 0 ==> !is_white_space(trimmed(s)[0]) && !is_white_space(
            trimmed(s).last(),
        ),
{
    let f = trim_front(s);
    lemma_trim_front(s);
    lemma_trim_back(f);
    let t = trim_back(f);
    let a = s.len() - f.len();
    assert(t =~= s.subrange(a, a + t.len()));
    if t.len() > 0 {
        assert(t[0] == f[0]);
    }
}

/// The chapter fields of a progress text hold no `/`, and none starts or ends
/// with white space.
pub proof fn lemma_chapter_fields_clean(text: Seq<char>)
    ensures
        forall|k: int|
            0 <= k < chapter_fields_of(text).len() ==> {
                let f = #[trigger] chapter_fields_of(text)[k];
                &&& !f.contains('/')
                &&& f.len() > 0 ==> !is_white_space(f[0]) && !is_white_space(f.last())
            },
{
    lemma_split_join(text, '/');
    let ps = split_on(text, '/');
    assert forall|k: int| 0 <= k < chapter_fields_of(text).len() implies {
        let f = #[trigger] chapter_fields_of(text)[k];
        &&& !f.contains('/')
        &&& f.len() > 0 ==> !is_white_space(f[0]) && !is_white_space(f.last())
    } by {
        let p = ps[k];
        assert(!p.contains('/'));
        lemma_trimmed_clean(p);
        let f = trimmed(p);
        assert(chapter_fields_of(text)[k] == f);
        let (a, b) = choose|a: int, b: int| 0 <= a <= b <= p.len() && f == p.subrange(a, b);
        if f.contains('/') {
            let j = choose|j: int| 0 <= j < f.len() && f[j] == '/';
            assert(p[a + j] == '/');
        }
    }
}

/// How often `c` occurs in `s`.
pub open spec fn char_count(s: Seq<char>, c: char) -> nat
    decreases s.len(),
{
    if s.len() == 0 {
        0
    } else {
        char_count(s.drop_last(), c) + if s.last() == c {
            1nat
        } else {
            0nat
        }
    }
}

/// Splitting gives one more piece than there are separators.
pub proof fn lemma_split_len(s: Seq<char>, sep: char)
    ensures
        split_on(s, sep).len() == char_count(s, sep) + 1,
    decreases s.len(),
{
    if s.len() > 0 {
        lemma_split_len(s.drop_last(), sep);
    }
}

/// A progress text has one chapter field more than it has `/`, and the field at
/// each place is the piece between the slashes at that place, trimmed: for
/// `12 / 340` the fields are `12` and `340`, even where both are equal.
pub proof fn lemma_chapter_fields_exact(text: Seq<char>)
    ensures
        chapter_fields_of(text).len() == char_count(text, '/') + 1,
        forall|k: int|
            0 <= k < chapter_fields_of(text).len() ==> #[trigger] chapter_fields_of(text)[k]
                == trimmed(split_on(text, '/')[k]),
        joined(split_on(text, '/'), seq!['/']) == text,
{
    lemma_split_len(text, '/');
    lemma_split_join(text, '/');
}

/// Splits a reading-progress text at `/` and trims each piece.
pub fn chapter_fields(text: &str) -> (r: Vec<String>)
    ensures
        texts(r@) == chapter_fields_of(text@),
        r@.len() == char_count(text@, '/') + 1,
        forall|k: int| 0 <= k < r@.len() ==> #[trigger] r@[k]@ == trimmed(split_on(text@, '/')[k]),
{
    let pieces = split_at_char(text, '/');
    proof {
        lemma_split_len(text@, '/');
    }
    let mut out: Vec<String> = Vec::new();
    let mut i: usize = 0;
    while i < pieces.len()
        invariant
            i <= pieces.len(),
            texts(pieces@) == split_on(text@, '/'),
            out@.len() == i,
            forall|k: int| 0 <= k < i ==> #[trigger] out@[k]@ == trimmed(pieces@[k]@),
        decreases pieces.len() - i,
    {
        let t = trim(pieces[i].as_str());
        out.push(t);
        i = i + 1;
    }
    assert(texts(out@) =~= chapter_fields_of(text@)) by {
        assert forall|k: int| 0 <= k < out@.len() implies #[trigger] texts(out@)[k]
            == chapter_fields_of(text@)[k] by {
            assert(texts(pieces@)[k] == pieces@[k]@);
        }
    }
    assert forall|k: int| 0 <= k < out@.len() implies #[trigger] out@[k]@ == trimmed(
        split_on(text@, '/')[k],
    ) by {
        assert(texts(pieces@)[k] == pieces@[k]@);
    }
    out
}

/// What `Debug` writes for a list of texts: `[`, each text in its debug form
/// with `, ` between them, then `]`.
pub open spec fn debug_list_text(items: Seq<Seq<char>>) -> Seq<char> {
    seq!['['] + joined(items.map_values(|t: Seq<char>| str_debug_text(t)), seq![',', ' '])
        + seq![']']
}

/// Writes a list of texts as `Vec<String>`'s `Debug` does.
pub fn debug_list(items: &Vec<String>) -> (r: String)
    ensures
        r@ == debug_list_text(texts(items@)),
{
    let ghost shown = texts(items@).map_values(|t: Seq<char>| str_debug_text(t));
    let mut out = String::new();
    push_char(&mut out, '[');
    let mut i: usize = 0;
    while i < items.len()
        invariant
            i <= items.len(),
            shown == texts(items@).map_values(|t: Seq<char>| str_debug_text(t)),
            out@ == seq!['['] + joined(shown.take(i as int), seq![',', ' ']),
        decreases items.len() - i,
    {
        let ghost prev = out@;
        if i > 0 {
            push_char(&mut out, ',');
            push_char(&mut out, ' ');
        }
        let q = debug_quoted(items[i].as_str());
        out.append(q.as_str());
        assert(shown[i as int] == str_debug_text(items@[i as int]@));
        assert(shown.take(i + 1).drop_last() =~= shown.take(i as int));
        assert(shown.take(i + 1).last() == shown[i as int]);
        if i > 0 {
            assert(out@ =~= seq!['['] + joined(shown.take(i + 1), seq![',', ' ']));
        } else {
            assert(shown.take(1)[0] == shown[0]);
            assert(out@ =~= seq!['['] + joined(shown.take(i + 1), seq![',', ' ']));
        }
        i = i + 1;
    }
    push_char(&mut out, ']');
    assert(shown.take(items.len() as int) =~= shown);
    assert(out@ =~= debug_list_text(texts(items@)));
    out
}

} // verus!
