//! Character-sequence utilities for the delimiter-separated catalog files:
//! splitting on a separator, whitespace trimming, and the cleanliness
//! predicate that makes a field survive a write/read cycle.

use vstd::prelude::*;

verus! {

/// Whitespace as the loader trims it from field edges.
pub open spec fn is_ws_char(c: char) -> bool {
    c == ' ' || c == '\t' || c == '\r' || c == '\n'
}

pub fn is_ws(c: char) -> (r: bool)
    ensures
        r == is_ws_char(c),
{
    c == ' ' || c == '\t' || c == '\r' || c == '\n'
}

pub open spec fn trim_front(s: Seq<char>) -> Seq<char>
    decreases s.len(),
{
    if s.len() > 0 && is_ws_char(s[0]) {
        trim_front(s.skip(1))
    } else {
        s
    }
}

pub open spec fn trim_back(s: Seq<char>) -> Seq<char>
    decreases s.len(),
{
    if s.len() > 0 && is_ws_char(s[s.len() - 1]) {
        trim_back(s.take(s.len() - 1))
    } else {
        s
    }
}

/// The field with leading and trailing whitespace removed.
pub open spec fn trimmed(s: Seq<char>) -> Seq<char> {
    trim_back(trim_front(s))
}

/// A field whose edges carry no whitespace comes back from `trimmed` unchanged.
pub proof fn lemma_trim_stable(s: Seq<char>)
    requires
        s.len() == 0 || (!is_ws_char(s[0]) && !is_ws_char(s[s.len() - 1])),
    ensures
        trimmed(s) == s,
{
    assert(trim_front(s) == s);
    assert(trim_back(s) == s);
}

pub proof fn lemma_trim_front_range(s: Seq<char>, i: int)
    requires
        0 <= i <= s.len(),
        forall|k: int| 0 <= k < i ==> is_ws_char(s[k]),
        i == s.len() || !is_ws_char(s[i]),
    ensures
        trim_front(s) =~= s.skip(i),
    decreases i,
{
    if i > 0 {
        assert(is_ws_char(s[0]));
        assert forall|k: int| 0 <= k < i - 1 implies is_ws_char(s.skip(1)[k]) by {
            assert(s.skip(1)[k] == s[k + 1]);
        }
        if i - 1 < s.skip(1).len() {
            assert(s.skip(1)[i - 1] == s[i]);
        }
        lemma_trim_front_range(s.skip(1), i - 1);
        assert(s.skip(1).skip(i - 1) =~= s.skip(i));
    }
}

pub proof fn lemma_trim_back_range(s: Seq<char>, j: int)
    requires
        0 <= j <= s.len(),
        forall|k: int| j <= k < s.len() ==> is_ws_char(s[k]),
        j == 0 || !is_ws_char(s[j - 1]),
    ensures
        trim_back(s) =~= s.take(j),
    decreases s.len() - j,
{
    if j < s.len() {
        assert(is_ws_char(s[s.len() - 1]));
        let t = s.take(s.len() - 1);
        assert forall|k: int| j <= k < t.len() implies is_ws_char(t[k]) by {
            assert(t[k] == s[k]);
        }
        if j > 0 {
            assert(t[j - 1] == s[j - 1]);
        }
        lemma_trim_back_range(t, j);
        assert(t.take(j) =~= s.take(j));
    } else {
        assert(trim_back(s) == s);
        assert(s.take(j) =~= s);
    }
}

/// Trims whitespace from both edges of a field.
pub fn trim_chars(v: &Vec<char>) -> (r: Vec<char>)
    ensures
        r@ == trimmed(v@),
{
    let mut i: usize = 0;
    while i < v.len() && is_ws(v[i])
        invariant
            0 <= i <= v@.len(),
            forall|k: int| 0 <= k < i ==> is_ws_char(v@[k]),
        decreases v@.len() - i,
    {
        i += 1;
    }
    proof {
        lemma_trim_front_range(v@, i as int);
    }
    let mut j: usize = v.len();
    while j > i && is_ws(v[j - 1])
        invariant
            i <= j <= v@.len(),
            forall|k: int| j <= k < v@.len() ==> is_ws_char(v@[k]),
        decreases j,
    {
        j -= 1;
    }
    let ghost f = v@.skip(i as int);
    proof {
        assert forall|k: int| (j - i) <= k < f.len() implies is_ws_char(f[k]) by {
            assert(f[k] == v@[k + i]);
        }
        if j > i {
            assert(f[j - i - 1] == v@[j as int - 1]);
        }
        lemma_trim_back_range(f, j - i);
    }
    let mut r: Vec<char> = Vec::new();
    let mut k: usize = i;
    while k < j
        invariant
            i <= k <= j <= v@.len(),
            r@ =~= v@.subrange(i as int, k as int),
        decreases j - k,
    {
        r.push(v[k]);
        k += 1;
    }
    proof {
        assert(r@ =~= f.take(j - i));
    }
    r
}

/// The fields of `s` between occurrences of `sep`; a string without the
/// separator is one field, and every separator starts a new field.
pub open spec fn split_on(s: Seq<char>, sep: char) -> Seq<Seq<char>>
    decreases s.len(),
{
    if s.len() == 0 {
        seq![seq![]]
    } else if s[0] == sep {
        seq![seq![]] + split_on(s.skip(1), sep)
    } else {
        let rest = split_on(s.skip(1), sep);
        seq![seq![s[0]] + rest[0]] + rest.skip(1)
    }
}

pub proof fn lemma_split_len(s: Seq<char>, sep: char)
    ensures
        split_on(s, sep).len() >= 1,
    decreases s.len(),
{
    if s.len() > 0 {
        lemma_split_len(s.skip(1), sep);
    }
}

pub fn split_chars(v: &Vec<char>, sep: char) -> (r: Vec<Vec<char>>)
    ensures
        r.deep_view() == split_on(v@, sep),
{
    let mut done: Vec<Vec<char>> = Vec::new();
    let mut cur: Vec<char> = Vec::new();
    let mut k: usize = 0;
    proof {
        lemma_split_len(v@, sep);
        let t = split_on(v@, sep);
        assert(v@.skip(0) =~= v@);
        assert(cur@ + t[0] =~= t[0]);
        assert(done.deep_view() =~~= Seq::<Seq<char>>::empty());
        assert(t =~~= done.deep_view() + seq![cur@ + t[0]] + t.skip(1));
    }
    while k < v.len()
        invariant
            0 <= k <= v@.len(),
            split_on(v@.skip(k as int), sep).len() >= 1,
            split_on(v@, sep) =~~= done.deep_view() + seq![
                cur@ + split_on(v@.skip(k as int), sep)[0],
            ] + split_on(v@.skip(k as int), sep).skip(1),
        decreases v@.len() - k,
    {
        let ghost pre = v@.skip(k as int);
        let ghost post = v@.skip(k as int + 1);
        proof {
            assert(pre[0] == v@[k as int]);
            assert(pre.skip(1) =~= post);
            lemma_split_len(post, sep);
        }
        let c = v[k];
        if c == sep {
            let ghost old_deep = done.deep_view();
            let ghost old_cur = cur@;
            done.push(cur);
            cur = Vec::new();
            proof {
                assert(split_on(pre, sep) =~= seq![Seq::<char>::empty()] + split_on(post, sep));
                assert(old_cur + split_on(pre, sep)[0] =~= old_cur);
                assert(done.deep_view() =~~= old_deep.push(old_cur));
                assert(split_on(v@, sep) =~~= done.deep_view() + seq![
                    cur@ + split_on(post, sep)[0],
                ] + split_on(post, sep).skip(1));
            }
        } else {
            let ghost old_cur = cur@;
            cur.push(c);
            proof {
                let rest = split_on(post, sep);
                assert(split_on(pre, sep) =~= seq![seq![pre[0]] + rest[0]] + rest.skip(1));
                assert(old_cur + split_on(pre, sep)[0] =~= cur@ + rest[0]);
                assert(split_on(pre, sep).skip(1) =~= rest.skip(1));
                assert(split_on(v@, sep) =~~= done.deep_view() + seq![cur@ + rest[0]] + rest.skip(
                    1,
                ));
            }
        }
        k += 1;
    }
    proof {
        assert(v@.skip(k as int) =~= Seq::<char>::empty());
        assert(split_on(v@.skip(k as int), sep) =~= seq![Seq::<char>::empty()]);
        assert(cur@ + Seq::<char>::empty() =~= cur@);
    }
    let ghost old_done = done.deep_view();
    let ghost last = cur@;
    done.push(cur);
    proof {
        assert(done.deep_view() =~~= old_done + seq![last]);
        assert(split_on(v@, sep) =~~= done.deep_view());
    }
    done
}

/// A string free of the separator is a single field.
pub proof fn lemma_split_no_sep(s: Seq<char>, sep: char)
    requires
        forall|i: int| 0 <= i < s.len() ==> s[i] != sep,
    ensures
        split_on(s, sep) =~~= seq![s],
    decreases s.len(),
{
    if s.len() > 0 {
        lemma_split_no_sep(s.skip(1), sep);
        assert(seq![s[0]] + s.skip(1) =~= s);
    }
}

/// A split that came back as one field covered the whole string.
pub proof fn lemma_split_single(s: Seq<char>, sep: char)
    requires
        split_on(s, sep).len() == 1,
    ensures
        split_on(s, sep)[0] == s,
    decreases s.len(),
{
    if s.len() > 0 {
        lemma_split_len(s.skip(1), sep);
        if s[0] == sep {
            assert(split_on(s, sep).len() >= 2);
        } else {
            let rest = split_on(s.skip(1), sep);
            assert(rest.len() == 1);
            lemma_split_single(s.skip(1), sep);
            assert(seq![s[0]] + rest[0] =~= s);
        }
    }
}

/// Splitting starts over after the first separator.
pub proof fn lemma_split_at_sep(a: Seq<char>, b: Seq<char>, sep: char)
    requires
        forall|i: int| 0 <= i < a.len() ==> a[i] != sep,
    ensures
        split_on(a + seq![sep] + b, sep) =~~= seq![a] + split_on(b, sep),
    decreases a.len(),
{
    let s = a + seq![sep] + b;
    if a.len() == 0 {
        assert(s[0] == sep);
        assert(s.skip(1) =~= b);
    } else {
        assert(s[0] == a[0]);
        assert(s[0] != sep);
        assert(s.skip(1) =~= a.skip(1) + seq![sep] + b);
        lemma_split_at_sep(a.skip(1), b, sep);
        let rest = split_on(s.skip(1), sep);
        assert(rest =~~= seq![a.skip(1)] + split_on(b, sep));
        assert(seq![s[0]] + rest[0] =~= a);
        assert(rest.skip(1) =~~= split_on(b, sep));
    }
}

/// The characters of `v` from position `from` on.
pub fn tail_chars(v: &Vec<char>, from: usize) -> (r: Vec<char>)
    requires
        from <= v@.len(),
    ensures
        r@ == v@.skip(from as int),
{
    let mut r: Vec<char> = Vec::new();
    let mut k: usize = from;
    while k < v.len()
        invariant
            from <= k <= v@.len(),
            r@ =~= v@.subrange(from as int, k as int),
        decreases v@.len() - k,
    {
        r.push(v[k]);
        k += 1;
    }
    proof {
        assert(r@ =~= v@.skip(from as int));
    }
    r
}

/// The trimmed fields of one line.
pub open spec fn fields_of(line: Seq<char>) -> Seq<Seq<char>> {
    split_on(line, ',').map_values(|f: Seq<char>| trimmed(f))
}

pub fn line_fields(line: &Vec<char>) -> (r: Vec<Vec<char>>)
    ensures
        r.deep_view() == fields_of(line@),
{
    let raw = split_chars(line, ',');
    let ghost goal = fields_of(line@);
    let mut r: Vec<Vec<char>> = Vec::new();
    let mut k: usize = 0;
    proof {
        assert(raw@.len() == raw.deep_view().len());
        assert(goal.len() == raw.deep_view().len());
        assert(r.deep_view() =~~= goal.take(0));
    }
    while k < raw.len()
        invariant
            0 <= k <= raw@.len(),
            raw.deep_view() == split_on(line@, ','),
            raw@.len() == raw.deep_view().len(),
            goal == fields_of(line@),
            goal.len() == raw@.len(),
            r.deep_view() =~~= goal.take(k as int),
        decreases raw@.len() - k,
    {
        let t = trim_chars(&raw[k]);
        proof {
            assert(raw@[k as int]@ == raw.deep_view()[k as int]);
            assert(goal[k as int] == trimmed(raw.deep_view()[k as int]));
        }
        let ghost old_deep = r.deep_view();
        r.push(t);
        proof {
            assert(r.deep_view() =~~= old_deep.push(trimmed(raw.deep_view()[k as int])));
            assert(r.deep_view() =~~= goal.take(k as int + 1));
        }
        k += 1;
    }
    proof {
        assert(goal.take(k as int) =~~= goal);
    }
    r
}

pub fn chars_equal(a: &Vec<char>, b: &Vec<char>) -> (r: bool)
    ensures
        r == (a@ == b@),
{
    if a.len() != b.len() {
        return false;
    }
    let mut k: usize = 0;
    while k < a.len()
        invariant
            0 <= k <= a@.len(),
            a@.len() == b@.len(),
            forall|i: int| 0 <= i < k ==> a@[i] == b@[i],
        decreases a@.len() - k,
    {
        if a[k] != b[k] {
            return false;
        }
        k += 1;
    }
    proof {
        assert(a@ =~= b@);
    }
    true
}

/// Relies on std's `PartialEq` for `str`: two string slices compare equal
/// exactly when they hold the same characters.
#[verifier::external_body]
pub(crate) fn str_eq(a: &str, b: &str) -> (r: bool)
    ensures
        r == (a@ == b@),
{
    a == b
}

/// Relies on std's `str::chars`: iterating a string yields exactly the
/// characters of its view, in order.
#[verifier::external_body]
pub(crate) fn str_chars(s: &str) -> (r: Vec<char>)
    ensures
        r@ == s@,
{
    s.chars().collect()
}

/// Relies on std's `FromIterator` for `String`: collecting characters builds
/// the string of exactly those characters, in order.
#[verifier::external_body]
pub(crate) fn string_from_chars(v: &Vec<char>) -> (r: String)
    ensures
        r@ == v@,
{
    v.iter().collect()
}

pub fn chars_match_str(v: &Vec<char>, s: &str) -> (r: bool)
    ensures
        r == (v@ == s@),
{
    let sc = str_chars(s);
    chars_equal(v, &sc)
}

/// A field free of the separator and the line break; such a field cannot
/// corrupt the row structure when written out.
pub open spec fn sep_free(s: Seq<char>) -> bool {
    forall|i: int| 0 <= i < s.len() ==> s[i] != ',' && s[i] != '\n'
}

/// A field the writers can persist losslessly: free of delimiters and with
/// no whitespace at its edges for the reader to strip.
pub open spec fn csv_clean(s: Seq<char>) -> bool {
    sep_free(s) && trimmed(s) == s
}

/// A field free of line breaks; lines of a file must be, or they would
/// split.
pub open spec fn nl_free(s: Seq<char>) -> bool {
    forall|i: int| 0 <= i < s.len() ==> s[i] != '\n'
}

pub proof fn lemma_nl_free_concat(a: Seq<char>, b: Seq<char>)
    requires
        nl_free(a),
        nl_free(b),
    ensures
        nl_free(a + b),
{
    assert forall|i: int| 0 <= i < (a + b).len() implies (a + b)[i] != '\n' by {
        if i < a.len() {
            assert((a + b)[i] == a[i]);
        } else {
            assert((a + b)[i] == b[i - a.len()]);
        }
    }
}

pub proof fn lemma_trim_front_len(s: Seq<char>)
    ensures
        trim_front(s).len() <= s.len(),
    decreases s.len(),
{
    if s.len() > 0 && is_ws_char(s[0]) {
        lemma_trim_front_len(s.skip(1));
    }
}

pub proof fn lemma_trim_back_len(s: Seq<char>)
    ensures
        trim_back(s).len() <= s.len(),
    decreases s.len(),
{
    if s.len() > 0 && is_ws_char(s[s.len() - 1]) {
        lemma_trim_back_len(s.take(s.len() - 1));
    }
}

/// A nonempty field that trimming leaves alone has no whitespace at either
/// edge.
pub proof fn lemma_clean_edges(s: Seq<char>)
    requires
        trimmed(s) == s,
        s.len() > 0,
    ensures
        !is_ws_char(s[0]),
        !is_ws_char(s[s.len() - 1]),
{
    if is_ws_char(s[0]) {
        assert(trim_front(s) == trim_front(s.skip(1)));
        lemma_trim_front_len(s.skip(1));
        lemma_trim_back_len(trim_front(s));
        assert(trimmed(s).len() < s.len());
    }
    if !is_ws_char(s[0]) && is_ws_char(s[s.len() - 1]) {
        assert(trim_front(s) == s);
        assert(trim_back(s) == trim_back(s.take(s.len() - 1)));
        lemma_trim_back_len(s.take(s.len() - 1));
        assert(trimmed(s).len() < s.len());
    }
}

/// A line counts once it holds anything beyond whitespace; blank lines,
/// including the one after a final newline, are passed over.
pub open spec fn is_blank(l: Seq<char>) -> bool {
    trimmed(l).len() == 0
}

pub open spec fn nonblank_lines(ls: Seq<Seq<char>>) -> Seq<Seq<char>>
    decreases ls.len(),
{
    if ls.len() == 0 {
        seq![]
    } else if is_blank(ls[0]) {
        nonblank_lines(ls.skip(1))
    } else {
        seq![ls[0]] + nonblank_lines(ls.skip(1))
    }
}

pub fn clone_chars(v: &Vec<char>) -> (r: Vec<char>)
    ensures
        r@ == v@,
{
    let mut r: Vec<char> = Vec::new();
    let mut k: usize = 0;
    while k < v.len()
        invariant
            0 <= k <= v@.len(),
            r@ =~= v@.take(k as int),
        decreases v@.len() - k,
    {
        r.push(v[k]);
        k += 1;
    }
    proof {
        assert(r@ =~= v@);
    }
    r
}

/// A list of real lines passes the blank filter unchanged.
pub proof fn lemma_nonblank_id(ls: Seq<Seq<char>>)
    requires
        forall|i: int| 0 <= i < ls.len() ==> !is_blank(#[trigger] ls[i]),
    ensures
        nonblank_lines(ls) =~~= ls,
    decreases ls.len(),
{
    if ls.len() > 0 {
        assert(!is_blank(ls[0]));
        assert forall|i: int| 0 <= i < ls.skip(1).len() implies !is_blank(
            #[trigger] ls.skip(1)[i],
        ) by {
            assert(ls.skip(1)[i] == ls[i + 1]);
        }
        lemma_nonblank_id(ls.skip(1));
        assert(seq![ls[0]] + ls.skip(1) =~~= ls);
    }
}

/// A trailing blank line — such as the one after a final newline — is
/// dropped by the blank filter.
pub proof fn lemma_nonblank_drop_blank_last(ls: Seq<Seq<char>>, b: Seq<char>)
    requires
        is_blank(b),
    ensures
        nonblank_lines(ls.push(b)) =~~= nonblank_lines(ls),
    decreases ls.len(),
{
    let all = ls.push(b);
    if ls.len() == 0 {
        assert(all[0] == b);
        assert(all.skip(1) =~= Seq::<Seq<char>>::empty());
        assert(nonblank_lines(all.skip(1)) =~~= Seq::<Seq<char>>::empty());
    } else {
        assert(all[0] == ls[0]);
        assert(all.skip(1) =~= ls.skip(1).push(b));
        lemma_nonblank_drop_blank_last(ls.skip(1), b);
    }
}

pub fn keep_nonblank(lines: &Vec<Vec<char>>) -> (r: Vec<Vec<char>>)
    ensures
        r.deep_view() == nonblank_lines(lines.deep_view()),
{
    let ghost all = lines.deep_view();
    let mut r: Vec<Vec<char>> = Vec::new();
    let mut k: usize = 0;
    proof {
        assert(all.skip(0) =~= all);
        assert(r.deep_view() =~~= Seq::<Seq<char>>::empty());
        assert(nonblank_lines(all) =~~= r.deep_view() + nonblank_lines(all.skip(0)));
    }
    while k < lines.len()
        invariant
            0 <= k <= lines@.len(),
            all == lines.deep_view(),
            all.len() == lines@.len(),
            nonblank_lines(all) =~~= r.deep_view() + nonblank_lines(all.skip(k as int)),
        decreases lines@.len() - k,
    {
        let ghost suf = all.skip(k as int);
        proof {
            assert(suf[0] == all[k as int]);
            assert(all[k as int] == lines@[k as int]@);
            assert(suf.skip(1) =~= all.skip(k as int + 1));
        }
        let t = trim_chars(&lines[k]);
        if t.len() > 0 {
            let ghost old_r = r.deep_view();
            let kept = clone_chars(&lines[k]);
            r.push(kept);
            proof {
                assert(!is_blank(suf[0]));
                assert(r.deep_view() =~~= old_r + seq![all[k as int]]);
                assert(nonblank_lines(suf) =~= seq![suf[0]] + nonblank_lines(suf.skip(1)));
                assert(nonblank_lines(all) =~~= r.deep_view() + nonblank_lines(
                    all.skip(k as int + 1),
                ));
            }
        } else {
            proof {
                assert(is_blank(suf[0]));
                assert(nonblank_lines(suf) =~= nonblank_lines(suf.skip(1)));
                assert(nonblank_lines(all) =~~= r.deep_view() + nonblank_lines(
                    all.skip(k as int + 1),
                ));
            }
        }
        k += 1;
    }
    proof {
        assert(all.skip(k as int) =~= Seq::<Seq<char>>::empty());
        assert(nonblank_lines(all.skip(k as int)) =~= Seq::<Seq<char>>::empty());
        assert(nonblank_lines(all) =~~= r.deep_view());
    }
    r
}

} // verus!
