//! Text and path helpers: Unicode whitespace, trimming, word splitting and
//! joining of path components.
use vstd::prelude::*;

verus! {

/// The Unicode `White_Space` characters, the set that `char::is_whitespace`,
/// `str::trim` and `str::split_whitespace` use.
pub open spec fn is_white_space(c: char) -> bool {
    let u = c as u32;
    ||| 0x09 <= u <= 0x0d
    ||| u == 0x20
    ||| u == 0x85
    ||| u == 0xa0
    ||| u == 0x1680
    ||| 0x2000 <= u <= 0x200a
    ||| u == 0x2028
    ||| u == 0x2029
    ||| u == 0x202f
    ||| u == 0x205f
    ||| u == 0x3000
}

/// `s` without its leading whitespace.
pub open spec fn trim_start(s: Seq<char>) -> Seq<char>
    decreases s.len(),
{
    if s.len() > 0 && is_white_space(s[0]) {
        trim_start(s.drop_first())
    } else {
        s
    }
}

/// `s` without its trailing whitespace.
pub open spec fn trim_end(s: Seq<char>) -> Seq<char>
    decreases s.len(),
{
    if s.len() > 0 && is_white_space(s.last()) {
        trim_end(s.drop_last())
    } else {
        s
    }
}

/// `s` without leading and trailing whitespace.
pub open spec fn trimmed(s: Seq<char>) -> Seq<char> {
    trim_end(trim_start(s))
}

/// The words of `rest`, the maximal runs of non-whitespace characters, in
/// order, after the word `current` that is being read.
pub open spec fn words_from(rest: Seq<char>, current: Seq<char>) -> Seq<Seq<char>>
    decreases rest.len(),
{
    let done: Seq<Seq<char>> = if current.len() > 0 { seq![current] } else { seq![] };
    if rest.len() == 0 {
        done
    } else if is_white_space(rest[0]) {
        done + words_from(rest.drop_first(), seq![])
    } else {
        words_from(rest.drop_first(), current.push(rest[0]))
    }
}

/// The words of `s`: its maximal non-empty runs of non-whitespace
/// characters, in order.
pub open spec fn words(s: Seq<char>) -> Seq<Seq<char>> {
    words_from(s, seq![])
}

proof fn lemma_trim_start_cut(s: Seq<char>) -> (i: int)
    ensures
        0 <= i <= s.len(),
        trim_start(s) == s.skip(i),
        forall|k: int| 0 <= k < i ==> is_white_space(#[trigger] s[k]),
        i < s.len() ==> !is_white_space(s[i]),
    decreases s.len(),
{
    if s.len() > 0 && is_white_space(s[0]) {
        let j = lemma_trim_start_cut(s.drop_first());
        assert(s.drop_first().skip(j) =~= s.skip(j + 1));
        assert forall|k: int| 0 <= k < j + 1 implies is_white_space(#[trigger] s[k]) by {
            if k > 0 {
                assert(s[k] == s.drop_first()[k - 1]);
            }
        }
        if j + 1 < s.len() {
            assert(s[j + 1] == s.drop_first()[j]);
        }
        j + 1
    } else {
        assert(s.skip(0) =~= s);
        0
    }
}

proof fn lemma_trim_end_cut(s: Seq<char>) -> (j: int)
    ensures
        0 <= j <= s.len(),
        trim_end(s) == s.take(j),
        forall|k: int| j <= k < s.len() ==> is_white_space(#[trigger] s[k]),
        j > 0 ==> !is_white_space(s[j - 1]),
    decreases s.len(),
{
    if s.len() > 0 && is_white_space(s.last()) {
        let j = lemma_trim_end_cut(s.drop_last());
        assert(s.drop_last().take(j) =~= s.take(j));
        assert forall|k: int| j <= k < s.len() implies is_white_space(#[trigger] s[k]) by {
            if k < s.len() - 1 {
                assert(s[k] == s.drop_last()[k]);
            }
        }
        if j > 0 {
            assert(s[j - 1] == s.drop_last()[j - 1]);
        }
        j
    } else {
        assert(s.take(s.len() as int) =~= s);
        s.len() as int
    }
}

/// Trimming keeps one contiguous part of the text: everything before it and
/// after it is whitespace, and the part neither starts nor ends with
/// whitespace.
pub proof fn lemma_trimmed_shape(s: Seq<char>)
    ensures
        exists|i: int, j: int|
            0 <= i <= j <= s.len() && #[trigger] s.subrange(i, j) == trimmed(s) && (forall|k: int|
                0 <= k < i ==> is_white_space(#[trigger] s[k])) && (forall|k: int|
                j <= k < s.len() ==> is_white_space(#[trigger] s[k])),
        trimmed(s).len() > 0 ==> !is_white_space(trimmed(s)[0]) && !is_white_space(trimmed(s).last()),
{
    let i = lemma_trim_start_cut(s);
    let t = trim_start(s);
    let j = lemma_trim_end_cut(t);
    assert(t.take(j) =~= s.subrange(i, i + j));
    assert forall|k: int| i + j <= k < s.len() implies is_white_space(#[trigger] s[k]) by {
        assert(s[k] == t[k - i]);
    }
    assert(s.subrange(i, i + j) == trimmed(s));
    if trimmed(s).len() > 0 {
        assert(trimmed(s)[0] == t[0]);
        assert(trimmed(s).last() == t[j - 1]);
    }
}

proof fn lemma_words_from_clean(rest: Seq<char>, current: Seq<char>)
    requires
        forall|k: int| 0 <= k < current.len() ==> !is_white_space(#[trigger] current[k]),
    ensures
        forall|w: int|
            0 <= w < words_from(rest, current).len() ==> (#[trigger] words_from(rest, current)[w]).len()
                > 0 && forall|k: int|
                0 <= k < words_from(rest, current)[w].len() ==> !is_white_space(
                    #[trigger] words_from(rest, current)[w][k],
                ),
        (forall|k: int| 0 <= k < rest.len() ==> is_white_space(#[trigger] rest[k])) ==> words_from(
            rest,
            current,
        ) == (if current.len() > 0 { seq![current] } else { Seq::<Seq<char>>::empty() }),
        (forall|k: int| 0 <= k < rest.len() ==> !is_white_space(#[trigger] rest[k])) && current.len()
            + rest.len() > 0 ==> words_from(rest, current) == seq![current + rest],
    decreases rest.len(),
{
    if rest.len() == 0 {
        assert(current + rest =~= current);
    } else if is_white_space(rest[0]) {
        lemma_words_from_clean(rest.drop_first(), seq![]);
        let done: Seq<Seq<char>> = if current.len() > 0 { seq![current] } else { seq![] };
        let tail = words_from(rest.drop_first(), seq![]);
        assert(words_from(rest, current) == done + tail);
        assert forall|w: int| 0 <= w < words_from(rest, current).len() implies (
        #[trigger] words_from(rest, current)[w]).len() > 0 && forall|k: int|
            0 <= k < words_from(rest, current)[w].len() ==> !is_white_space(
                #[trigger] words_from(rest, current)[w][k],
            ) by {
            if w < done.len() {
                assert(words_from(rest, current)[w] == current);
            } else {
                assert(words_from(rest, current)[w] == tail[w - done.len()]);
            }
        }
        if forall|k: int| 0 <= k < rest.len() ==> is_white_space(#[trigger] rest[k]) {
            assert forall|k: int| 0 <= k < rest.drop_first().len() implies is_white_space(
                #[trigger] rest.drop_first()[k],
            ) by {
                assert(rest.drop_first()[k] == rest[k + 1]);
            }
            let done: Seq<Seq<char>> = if current.len() > 0 { seq![current] } else { seq![] };
            assert(done + Seq::<Seq<char>>::empty() =~= done);
        }
    } else {
        let next = current.push(rest[0]);
        assert forall|k: int| 0 <= k < next.len() implies !is_white_space(#[trigger] next[k]) by {
            if k < current.len() {
                assert(next[k] == current[k]);
            }
        }
        lemma_words_from_clean(rest.drop_first(), next);
        if forall|k: int| 0 <= k < rest.len() ==> !is_white_space(#[trigger] rest[k]) {
            assert forall|k: int| 0 <= k < rest.drop_first().len() implies !is_white_space(
                #[trigger] rest.drop_first()[k],
            ) by {
                assert(rest.drop_first()[k] == rest[k + 1]);
            }
            assert(next + rest.drop_first() =~= current + rest);
        }
    }
}

/// Every word is a non-empty run without whitespace; text made only of
/// whitespace has no words; text with no whitespace is one word.
pub proof fn lemma_words_shape(s: Seq<char>)
    ensures
        forall|w: int|
            0 <= w < words(s).len() ==> (#[trigger] words(s)[w]).len() > 0 && forall|k: int|
                0 <= k < words(s)[w].len() ==> !is_white_space(#[trigger] words(s)[w][k]),
        (forall|k: int| 0 <= k < s.len() ==> is_white_space(#[trigger] s[k])) ==> words(s).len() == 0,
        (forall|k: int| 0 <= k < s.len() ==> !is_white_space(#[trigger] s[k])) && s.len() > 0
            ==> words(s) == seq![s],
{
    lemma_words_from_clean(s, seq![]);
    assert(Seq::<char>::empty() + s =~= s);
}

/// Calls `str::trim`, which removes leading and trailing Unicode whitespace.
#[verifier::external_body]
pub(crate) fn trim_whitespace(s: &str) -> (t: &str)
    ensures
        t@ == trimmed(s@),
{
    s.trim()
}

/// Calls `str::split_whitespace`, which yields the maximal non-empty runs of
/// non-whitespace characters of `s` in order.
#[verifier::external_body]
fn split_whitespace<'a>(s: &'a str) -> (parts: Vec<&'a str>)
    ensures
        parts@.len() == words(s@).len(),
        forall|i: int| 0 <= i < parts@.len() ==> #[trigger] parts@[i]@ == words(s@)[i],
{
    s.split_whitespace().collect()
}

/// The words of `s` as owned strings.
pub fn split_words(s: &str) -> (ws: Vec<String>)
    ensures
        ws@.len() == words(s@).len(),
        forall|i: int| 0 <= i < ws@.len() ==> #[trigger] ws@[i]@ == words(s@)[i],
{
    let parts = split_whitespace(s);
    let mut ws: Vec<String> = Vec::new();
    let mut i: usize = 0;
    while i < parts.len()
        invariant
            i <= parts@.len(),
            parts@.len() == words(s@).len(),
            forall|k: int| 0 <= k < parts@.len() ==> #[trigger] parts@[k]@ == words(s@)[k],
            ws@.len() == i,
            forall|k: int| 0 <= k < i ==> #[trigger] ws@[k]@ == words(s@)[k],
        decreases parts@.len() - i,
    {
        ws.push(String::from_str(parts[i]));
        i = i + 1;
    }
    ws
}

/// Joins a path and a component the way Unix paths join: a component that
/// starts with `/` replaces the path; otherwise it is appended, with a `/`
/// between the two unless the path is empty or already ends with `/`.
pub open spec fn joined_path(base: Seq<char>, part: Seq<char>) -> Seq<char> {
    if part.len() > 0 && part[0] == '/' {
        part
    } else if base.len() == 0 || base.last() == '/' {
        base + part
    } else {
        base + seq!['/'] + part
    }
}

/// A component that starts with `/` replaces the path; any other component
/// ends the joined path, after the path itself, with at most one `/`
/// between them.
pub proof fn lemma_join_shape(base: Seq<char>, part: Seq<char>)
    ensures
        part.len() > 0 && part[0] == '/' ==> joined_path(base, part) == part,
        !(part.len() > 0 && part[0] == '/') ==> {
            let j = joined_path(base, part);
            &&& j.take(base.len() as int) == base
            &&& j.skip(j.len() - part.len()) == part
            &&& j.len() == base.len() + part.len() || (j.len() == base.len() + part.len() + 1
                && j[base.len() as int] == '/' && base.len() > 0 && base.last() != '/')
        },
{
    let j = joined_path(base, part);
    if !(part.len() > 0 && part[0] == '/') {
        if base.len() == 0 || base.last() == '/' {
            assert(j.take(base.len() as int) =~= base);
            assert(j.skip(j.len() - part.len()) =~= part);
        } else {
            assert(j.take(base.len() as int) =~= base);
            assert(j.skip(j.len() - part.len()) =~= part);
        }
    }
}

/// `base` joined with `part` (see `joined_path`).
pub fn join_path(base: &str, part: &str) -> (joined: String)
    ensures
        joined@ == joined_path(base@, part@),
{
    let part_len = part.unicode_len();
    if part_len > 0 && part.get_char(0) == '/' {
        return String::from_str(part);
    }
    let base_len = base.unicode_len();
    let mut joined = String::from_str(base);
    if base_len > 0 && base.get_char(base_len - 1) != '/' {
        joined.append("/");
        proof {
            reveal_strlit("/");
        }
    }
    joined.append(part);
    proof {
        if base_len > 0 && base@.last() != '/' {
            assert("/"@ =~= seq!['/']);
        }
    }
    joined
}

/// The character sequences of a list of strings.
pub open spec fn views_of(strings: Seq<String>) -> Seq<Seq<char>> {
    strings.map_values(|s: String| s@)
}

/// The concatenation of `parts`, in order.
pub open spec fn concat_all(parts: Seq<Seq<char>>) -> Seq<char>
    decreases parts.len(),
{
    if parts.len() == 0 {
        seq![]
    } else {
        concat_all(parts.drop_last()) + parts.last()
    }
}

/// Concatenation keeps every part whole and in order: one part gives
/// itself, and the parts of two lists one after the other give the first
/// list's text followed by the second's.
pub proof fn lemma_concat_in_order(parts: Seq<Seq<char>>, more: Seq<Seq<char>>, one: Seq<char>)
    ensures
        concat_all(Seq::<Seq<char>>::empty()) == Seq::<char>::empty(),
        concat_all(seq![one]) == one,
        concat_all(parts + more) == concat_all(parts) + concat_all(more),
    decreases more.len(),
{
    assert(seq![one].drop_last() =~= Seq::<Seq<char>>::empty());
    assert(Seq::<char>::empty() + one =~= one);
    if more.len() == 0 {
        assert(parts + more =~= parts);
        assert(concat_all(parts) + Seq::<char>::empty() =~= concat_all(parts));
    } else {
        lemma_concat_in_order(parts, more.drop_last(), one);
        assert((parts + more).drop_last() =~= parts + more.drop_last());
        assert((parts + more).last() == more.last());
        assert(concat_all(parts) + concat_all(more.drop_last()) + more.last() =~= concat_all(parts)
            + (concat_all(more.drop_last()) + more.last()));
    }
}

/// Concatenates `parts` in order.
pub fn concat_strings(parts: &Vec<String>) -> (all: String)
    ensures
        all@ == concat_all(views_of(parts@)),
{
    let ghost views = views_of(parts@);
    let mut all = String::new();
    let mut i: usize = 0;
    while i < parts.len()
        invariant
            i <= parts@.len(),
            views == views_of(parts@),
            all@ == concat_all(views.take(i as int)),
        decreases parts@.len() - i,
    {
        all.append(parts[i].as_str());
        proof {
            assert(views.take(i + 1).drop_last() =~= views.take(i as int));
        }
        i = i + 1;
    }
    proof {
        assert(views.take(parts@.len() as int) =~= views);
    }
    all
}

} // verus!
