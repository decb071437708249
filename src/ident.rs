//! Identifier sanitizing: whitespace runs become `_`, and only
//! alphanumeric characters, `_` and `-` survive.
use vstd::prelude::*;
use vstd::string::*;

verus! {

/// The characters that carry Unicode's White_Space property.
pub open spec fn is_space(c: char) -> bool {
    let u = c as u32;
    (0x09 <= u && u <= 0x0d) || u == 0x20 || u == 0x85 || u == 0xa0 || u == 0x1680
        || (0x2000 <= u && u <= 0x200a) || u == 0x2028 || u == 0x2029 || u == 0x202f
        || u == 0x205f || u == 0x3000
}

/// Whether a character has Unicode's Alphabetic or Numeric property.
pub uninterp spec fn alphanumeric(c: char) -> bool;

/// Relies on `char::is_whitespace`, which tests the White_Space property.
#[verifier::external_body]
pub(crate) fn char_is_space(c: char) -> (r: bool)
    ensures
        r == is_space(c),
{
    c.is_whitespace()
}

/// Relies on `char::is_alphanumeric`: the Alphabetic or Numeric property.
#[verifier::external_body]
fn char_is_alphanumeric(c: char) -> (r: bool)
    ensures
        r == alphanumeric(c),
{
    c.is_alphanumeric()
}

/// Relies on `String::push`: the character is appended at the end.
pub assume_specification[ String::push ](s: &mut String, ch: char)
    ensures
        final(s)@ == old(s)@.push(ch),
;

/// A character that may stand in an identifier: an alphanumeric one, `_`
/// or `-`. Whitespace never stands in one.
pub open spec fn is_ident_char(c: char) -> bool {
    (alphanumeric(c) && !is_space(c)) || c == '_' || c == '-'
}

/// Text that holds nothing but whitespace (it is empty once trimmed).
pub open spec fn is_blank(s: Seq<char>) -> bool {
    forall|i: int| 0 <= i < s.len() ==> is_space(#[trigger] s[i])
}

/// The maximal runs of non-whitespace characters, in order.
pub open spec fn words(s: Seq<char>) -> Seq<Seq<char>>
    decreases s.len(),
{
    if s.len() == 0 {
        Seq::empty()
    } else {
        let prev = words(s.drop_last());
        let c = s.last();
        if is_space(c) {
            prev
        } else if s.len() >= 2 && !is_space(s[s.len() - 2]) {
            prev.update(prev.len() - 1, prev.last().push(c))
        } else {
            prev.push(seq![c])
        }
    }
}

/// The words joined with `_` between each two.
pub open spec fn join_words(ws: Seq<Seq<char>>) -> Seq<char>
    decreases ws.len(),
{
    if ws.len() == 0 {
        Seq::empty()
    } else if ws.len() == 1 {
        ws[0]
    } else {
        join_words(ws.drop_last()).push('_') + ws.last()
    }
}

/// The characters of `s` that may stand in an identifier, in order.
pub open spec fn keep_ident(s: Seq<char>) -> Seq<char>
    decreases s.len(),
{
    if s.len() == 0 {
        Seq::empty()
    } else if is_ident_char(s.last()) {
        keep_ident(s.drop_last()).push(s.last())
    } else {
        keep_ident(s.drop_last())
    }
}

/// Split on whitespace, drop empty pieces, join with `_`, then keep only
/// identifier characters.
pub open spec fn sanitized(s: Seq<char>) -> Seq<char> {
    keep_ident(join_words(words(s)))
}

proof fn lemma_join_push(ws: Seq<Seq<char>>, w: Seq<char>)
    ensures
        join_words(ws.push(w)) == if ws.len() == 0 {
            w
        } else {
            join_words(ws).push('_') + w
        },
{
    assert(ws.push(w).drop_last() =~= ws);
}

proof fn lemma_join_extend(ws: Seq<Seq<char>>, c: char)
    requires
        ws.len() > 0,
    ensures
        join_words(ws.update(ws.len() - 1, ws.last().push(c))) == join_words(ws).push(c),
{
    let u = ws.update(ws.len() - 1, ws.last().push(c));
    if ws.len() > 1 {
        assert(u.drop_last() =~= ws.drop_last());
        assert(join_words(u) =~= join_words(ws).push(c));
    }
}

proof fn lemma_keep_push(s: Seq<char>, c: char)
    ensures
        keep_ident(s.push(c)) == if is_ident_char(c) {
            keep_ident(s).push(c)
        } else {
            keep_ident(s)
        },
{
    assert(s.push(c).drop_last() =~= s);
}

proof fn lemma_keep_all_ident(s: Seq<char>)
    ensures
        forall|i: int| 0 <= i < keep_ident(s).len() ==> is_ident_char(#[trigger] keep_ident(s)[i]),
    decreases s.len(),
{
    if s.len() > 0 {
        lemma_keep_all_ident(s.drop_last());
        let k = keep_ident(s.drop_last());
        if is_ident_char(s.last()) {
            assert forall|i: int| 0 <= i < k.push(s.last()).len() implies is_ident_char(
                #[trigger] k.push(s.last())[i],
            ) by {
                if i < k.len() {
                    assert(is_ident_char(k[i]));
                }
            }
        }
    }
}

proof fn lemma_keep_identity(s: Seq<char>)
    requires
        forall|i: int| 0 <= i < s.len() ==> is_ident_char(#[trigger] s[i]),
    ensures
        keep_ident(s) == s,
    decreases s.len(),
{
    if s.len() > 0 {
        lemma_keep_identity(s.drop_last());
        assert(s.drop_last().push(s.last()) =~= s);
    }
}

proof fn lemma_words_of_word(s: Seq<char>)
    requires
        s.len() > 0,
        forall|i: int| 0 <= i < s.len() ==> !is_space(#[trigger] s[i]),
    ensures
        words(s) == seq![s],
    decreases s.len(),
{
    assert(!is_space(s.last()));
    if s.len() == 1 {
        assert(s.drop_last() =~= Seq::<char>::empty());
        assert(words(s.drop_last()) == Seq::<Seq<char>>::empty());
        assert(seq![s.last()] =~= s);
        assert(Seq::<Seq<char>>::empty().push(seq![s.last()]) =~= seq![s]);
    } else {
        lemma_words_of_word(s.drop_last());
        let prev = words(s.drop_last());
        assert(!is_space(s[s.len() - 2]));
        assert(prev.last() == s.drop_last());
        assert(s.drop_last().push(s.last()) =~= s);
        assert(prev.update(0, s.drop_last().push(s.last())) =~= seq![s]);
    }
}

proof fn lemma_words_of_blank(s: Seq<char>)
    requires
        is_blank(s),
    ensures
        words(s).len() == 0,
    decreases s.len(),
{
    if s.len() > 0 {
        lemma_words_of_blank(s.drop_last());
    }
}

/// Sanitizing is idempotent: a sanitized identifier is left as it is.
pub proof fn lemma_sanitized_idempotent(s: Seq<char>)
    ensures
        sanitized(sanitized(s)) == sanitized(s),
{
    let t = sanitized(s);
    lemma_keep_all_ident(join_words(words(s)));
    assert forall|i: int| 0 <= i < t.len() implies !is_space(#[trigger] t[i]) by {
        assert(is_ident_char(t[i]));
    }
    if t.len() == 0 {
        assert(words(t).len() == 0);
    } else {
        lemma_words_of_word(t);
        assert(join_words(seq![t]) == t);
    }
    lemma_keep_identity(t);
}

/// Every character of a sanitized text may stand in an identifier.
pub proof fn lemma_sanitized_chars(s: Seq<char>)
    ensures
        forall|i: int| 0 <= i < sanitized(s).len() ==> is_ident_char(#[trigger] sanitized(s)[i]),
{
    lemma_keep_all_ident(join_words(words(s)));
}

/// Blank text sanitizes to the empty identifier.
pub proof fn lemma_blank_sanitizes_empty(s: Seq<char>)
    requires
        is_blank(s),
    ensures
        sanitized(s).len() == 0,
{
    lemma_words_of_blank(s);
}

/// Turns text into an identifier: each run of whitespace between two words
/// becomes one `_`, leading and trailing whitespace goes, and every
/// character that is not alphanumeric, `_` or `-` is dropped.
pub fn clean_identifier(input: &str) -> (r: String)
    ensures
        r@ == sanitized(input@),
{
    let n = input.unicode_len();
    let mut out = String::new();
    let mut seen = false;
    let mut pending = false;
    let mut i: usize = 0;
    while i < n
        invariant
            n == input@.len(),
            i <= n,
            out@ == keep_ident(join_words(words(input@.take(i as int)))),
            seen == (words(input@.take(i as int)).len() > 0),
            pending == (i > 0 && is_space(input@[i - 1]) && seen),
            i > 0 && !is_space(input@[i - 1]) ==> seen,
        decreases n - i,
    {
        let c = input.get_char(i);
        let ghost pre = input@.take(i as int);
        let ghost ws = words(pre);
        let ghost next = input@.take(i + 1);
        assert(next.drop_last() =~= pre);
        assert(next.last() == c);
        assert(i > 0 ==> next[next.len() - 2] == input@[i - 1]);
        if char_is_space(c) {
            pending = seen;
        } else {
            let word_starts = i == 0 || char_is_space(input.get_char(i - 1));
            if word_starts {
                proof {
                    lemma_join_push(ws, seq![c]);
                    assert(words(next) == ws.push(seq![c]));
                    if ws.len() > 0 {
                        assert(join_words(ws).push('_') + seq![c] =~= join_words(ws).push('_').push(
                            c,
                        ));
                        lemma_keep_push(join_words(ws), '_');
                        lemma_keep_push(join_words(ws).push('_'), c);
                    } else {
                        assert(seq![c] =~= Seq::<char>::empty().push(c));
                        lemma_keep_push(Seq::<char>::empty(), c);
                        assert(join_words(ws) =~= Seq::<char>::empty());
                    }
                }
                if pending {
                    out.push('_');
                }
            } else {
                proof {
                    lemma_join_extend(ws, c);
                    lemma_keep_push(join_words(ws), c);
                }
            }
            if char_is_alphanumeric(c) || c == '_' || c == '-' {
                out.push(c);
            }
            seen = true;
            pending = false;
        }
        i = i + 1;
    }
    assert(input@.take(n as int) =~= input@);
    out
}

} // verus!
