//! Character-level text utilities: Unicode case folding, case-insensitive
//! comparison, prefix tests, trimming and word splitting.

use vstd::prelude::*;
use vstd::string::StrSliceExecFns;

verus! {

/// The lowercase form of a character sequence, as `str::to_lowercase`
/// computes it: a full statement of Unicode case mapping would run to
/// pages, so the result only carries this name. It is a function of the
/// characters alone.
pub uninterp spec fn lower_of(s: Seq<char>) -> Seq<char>;

/// Relies on str::to_lowercase: the result depends on the characters alone,
/// so it is named `lower_of` and stated no further.
#[verifier::external_body]
fn to_lower(s: &str) -> (r: String)
    ensures
        r@ == lower_of(s@),
{
    s.to_lowercase()
}

/// Two strings are equal when compared without regard to case: their
/// lowercased forms coincide.
pub open spec fn eq_ci(a: Seq<char>, b: Seq<char>) -> bool {
    lower_of(a) == lower_of(b)
}

/// Case-insensitive string equality.
pub fn eq_ignore_case(a: &str, b: &str) -> (r: bool)
    ensures
        r == eq_ci(a@, b@),
{
    let la = to_lower(a);
    let lb = to_lower(b);
    la.eq(&lb)
}

/// `p` is a prefix of `s`.
pub open spec fn is_prefix_of(p: Seq<char>, s: Seq<char>) -> bool {
    p.len() <= s.len() && (forall|i: int| 0 <= i < p.len() ==> p[i] == s[i])
}

/// Character-wise prefix test.
pub fn str_is_prefix(p: &str, s: &str) -> (r: bool)
    ensures
        r == is_prefix_of(p@, s@),
{
    let lp = p.unicode_len();
    let ls = s.unicode_len();
    if lp > ls {
        return false;
    }
    for i in 0..lp
        invariant
            lp == p@.len(),
            ls == s@.len(),
            lp <= ls,
            forall|j: int| 0 <= j < i ==> p@[j] == s@[j],
    {
        if p.get_char(i) != s.get_char(i) {
            return false;
        }
    }
    true
}

/// An item label matches a filter text when the lowercased filter is a
/// prefix of the lowercased label.
pub open spec fn matches_filter(item: Seq<char>, filter: Seq<char>) -> bool {
    is_prefix_of(lower_of(filter), lower_of(item))
}

/// Case-insensitive prefix test of `filter` against `item`.
pub fn filter_matches(item: &str, filter: &str) -> (r: bool)
    ensures
        r == matches_filter(item@, filter@),
{
    let li = to_lower(item);
    let lf = to_lower(filter);
    str_is_prefix(lf.as_str(), li.as_str())
}

/// Relies on std's String::push: it appends exactly the one character `c`
/// at the end of the string.
#[verifier::external_body]
pub(crate) fn push_char(s: &mut String, c: char)
    ensures
        final(s)@ == old(s)@.push(c),
{
    s.push(c)
}

/// The Unicode White_Space characters, as `str::trim` removes from
/// interactive input lines.
pub open spec fn is_space(c: char) -> bool {
    ||| c == '\u{0009}'
    ||| c == '\u{000A}'
    ||| c == '\u{000B}'
    ||| c == '\u{000C}'
    ||| c == '\u{000D}'
    ||| c == ' '
    ||| c == '\u{0085}'
    ||| c == '\u{00A0}'
    ||| c == '\u{1680}'
    ||| c == '\u{2000}'
    ||| c == '\u{2001}'
    ||| c == '\u{2002}'
    ||| c == '\u{2003}'
    ||| c == '\u{2004}'
    ||| c == '\u{2005}'
    ||| c == '\u{2006}'
    ||| c == '\u{2007}'
    ||| c == '\u{2008}'
    ||| c == '\u{2009}'
    ||| c == '\u{200A}'
    ||| c == '\u{2028}'
    ||| c == '\u{2029}'
    ||| c == '\u{202F}'
    ||| c == '\u{205F}'
    ||| c == '\u{3000}'
}

pub open spec fn trim_start_spec(s: Seq<char>) -> Seq<char>
    decreases s.len(),
{
    if s.len() > 0 && is_space(s[0]) {
        trim_start_spec(s.drop_first())
    } else {
        s
    }
}

pub open spec fn trim_end_spec(s: Seq<char>) -> Seq<char>
    decreases s.len(),
{
    if s.len() > 0 && is_space(s.last()) {
        trim_end_spec(s.drop_last())
    } else {
        s
    }
}

/// A string with leading and trailing ASCII whitespace removed.
pub open spec fn trim_spec(s: Seq<char>) -> Seq<char> {
    trim_end_spec(trim_start_spec(s))
}

proof fn lemma_trim_start_skip(s: Seq<char>, i: int)
    requires
        0 <= i <= s.len(),
        forall|j: int| 0 <= j < i ==> is_space(s[j]),
        i == s.len() || !is_space(s[i]),
    ensures
        trim_start_spec(s) == s.skip(i),
    decreases i,
{
    if i == 0 {
        assert(s.skip(0) =~= s);
    } else {
        let t = s.drop_first();
        assert(forall|j: int| 0 <= j < i - 1 ==> t[j] == s[j + 1]);
        lemma_trim_start_skip(t, i - 1);
        assert(t.skip(i - 1) =~= s.skip(i));
    }
}

proof fn lemma_trim_end_take(s: Seq<char>, e: int)
    requires
        0 <= e <= s.len(),
        forall|j: int| e <= j < s.len() ==> is_space(s[j]),
        e == 0 || !is_space(s[e - 1]),
    ensures
        trim_end_spec(s) == s.take(e),
    decreases s.len() - e,
{
    if e == s.len() {
        assert(s.take(e) =~= s);
        if s.len() > 0 && is_space(s.last()) {
            assert(!is_space(s[e - 1]));
        }
    } else {
        let t = s.drop_last();
        lemma_trim_end_take(t, e);
        assert(t.take(e) =~= s.take(e));
    }
}

fn is_space_char(c: char) -> (r: bool)
    ensures
        r == is_space(c),
{
    c == '\u{0009}' || c == '\u{000A}' || c == '\u{000B}' || c == '\u{000C}' || c == '\u{000D}'
        || c == ' ' || c == '\u{0085}' || c == '\u{00A0}' || c == '\u{1680}' || c == '\u{2000}'
        || c == '\u{2001}' || c == '\u{2002}' || c == '\u{2003}' || c == '\u{2004}'
        || c == '\u{2005}' || c == '\u{2006}' || c == '\u{2007}' || c == '\u{2008}'
        || c == '\u{2009}' || c == '\u{200A}' || c == '\u{2028}' || c == '\u{2029}'
        || c == '\u{202F}' || c == '\u{205F}' || c == '\u{3000}'
}

/// Removes leading and trailing ASCII whitespace.
pub fn trim(s: &str) -> (r: &str)
    ensures
        r@ == trim_spec(s@),
{
    let len = s.unicode_len();
    let mut b: usize = 0;
    while b < len && is_space_char(s.get_char(b))
        invariant
            len == s@.len(),
            0 <= b <= len,
            forall|j: int| 0 <= j < b ==> is_space(s@[j]),
        decreases len - b,
    {
        b = b + 1;
    }
    proof {
        lemma_trim_start_skip(s@, b as int);
    }
    if b == len {
        let r = s.substring_char(len, len);
        proof {
            assert(trim_start_spec(s@) =~= Seq::<char>::empty());
            assert(r@ =~= Seq::<char>::empty());
        }
        return r;
    }
    let mut e: usize = len;
    while e > b + 1 && is_space_char(s.get_char(e - 1))
        invariant
            len == s@.len(),
            b < e <= len,
            !is_space(s@[b as int]),
            forall|j: int| e <= j < len ==> is_space(s@[j]),
        decreases e,
    {
        e = e - 1;
    }
    let r = s.substring_char(b, e);
    proof {
        let t = s@.skip(b as int);
        assert(forall|j: int| 0 <= j < t.len() ==> t[j] == s@[j + b]);
        if is_space(s@[e - 1]) {
            // the scan only stops on a space when e == b + 1, where s[b] is no space
            assert(e == b + 1);
            assert(false);
        }
        lemma_trim_end_take(t, e - b);
        assert(t.take(e - b) =~= s@.subrange(b as int, e as int));
    }
    r
}

/// Splitting at every single space character, keeping empty segments,
/// carried by an accumulator for the word being read.
pub open spec fn split_rec(s: Seq<char>, cur: Seq<char>) -> Seq<Seq<char>>
    decreases s.len(),
{
    if s.len() == 0 {
        seq![cur]
    } else if s[0] == ' ' {
        seq![cur] + split_rec(s.drop_first(), Seq::empty())
    } else {
        split_rec(s.drop_first(), cur.push(s[0]))
    }
}

/// The segments of `s` between single space characters, in order,
/// empty segments kept (so `""` splits to `[""]`).
pub open spec fn split_words_spec(s: Seq<char>) -> Seq<Seq<char>> {
    split_rec(s, Seq::empty())
}

/// Splits at every space character, keeping empty segments.
pub fn split_words(s: &str) -> (r: Vec<String>)
    ensures
        r.deep_view() == split_words_spec(s@),
{
    let len = s.unicode_len();
    let mut r: Vec<String> = Vec::new();
    let mut start: usize = 0;
    proof {
        assert(s@.skip(0) =~= s@);
        assert(s@.subrange(0, 0) =~= Seq::<char>::empty());
        assert(r.deep_view() =~~= Seq::<Seq<char>>::empty());
        assert(Seq::<Seq<char>>::empty() + split_rec(s@, Seq::empty()) =~~= split_rec(
            s@,
            Seq::empty(),
        ));
    }
    for i in 0..len
        invariant
            len == s@.len(),
            0 <= start <= i <= len,
            split_words_spec(s@) == r.deep_view() + split_rec(
                s@.skip(i as int),
                s@.subrange(start as int, i as int),
            ),
    {
        let ghost prev = r.deep_view();
        let ghost rest = s@.skip(i as int);
        let ghost cur = s@.subrange(start as int, i as int);
        let c = s.get_char(i);
        if c == ' ' {
            let w = s.substring_char(start, i).to_owned();
            r.push(w);
            start = i + 1;
            proof {
                assert(rest[0] == ' ');
                assert(rest.drop_first() =~= s@.skip(i + 1));
                assert(s@.subrange(start as int, start as int) =~= Seq::<char>::empty());
                assert(r.deep_view() =~~= prev + seq![cur]);
                assert(prev + (seq![cur] + split_rec(s@.skip(i + 1), Seq::empty()))
                    =~~= (prev + seq![cur]) + split_rec(s@.skip(i + 1), Seq::empty()));
            }
        } else {
            proof {
                assert(rest[0] == s@[i as int] && rest[0] != ' ');
                assert(rest.drop_first() =~= s@.skip(i + 1));
                assert(cur.push(s@[i as int]) =~= s@.subrange(start as int, i + 1));
            }
        }
    }
    let w = s.substring_char(start, len).to_owned();
    let ghost prev = r.deep_view();
    let ghost cur = s@.subrange(start as int, len as int);
    r.push(w);
    proof {
        assert(s@.skip(len as int) =~= Seq::<char>::empty());
        assert(split_rec(s@.skip(len as int), cur) =~= seq![cur]);
        assert(r.deep_view() =~~= prev + seq![cur]);
    }
    r
}

} // verus!
