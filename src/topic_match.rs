use vstd::prelude::*;

verus! {

/// The end of the topic level that starts at `i`: the next `/` or the end.
pub open spec fn level_end(t: Seq<char>, i: int) -> int
    decreases t.len() - i,
{
    if i >= t.len() || t[i] == '/' {
        i
    } else {
        level_end(t, i + 1)
    }
}

/// MQTT wildcard matching of topic `t` from position `i` against filter `f` from
/// position `j`: `+` stands for one level, `#` for all remaining levels (the
/// parent level included, so `a/#` matches `a`), any other character for itself.
pub open spec fn matches_from(t: Seq<char>, f: Seq<char>, i: int, j: int) -> bool
    decreases f.len() - j, t.len() - i,
{
    if j >= f.len() {
        i >= t.len()
    } else if f[j] == '#' {
        true
    } else if f[j] == '+' {
        if level_end(t, i) >= i {
            matches_from(t, f, level_end(t, i), j + 1)
        } else {
            false
        }
    } else if j + 2 == f.len() && f[j] == '/' && f[j + 1] == '#' && i >= t.len() {
        true
    } else {
        0 <= i < t.len() && t[i] == f[j] && matches_from(t, f, i + 1, j + 1)
    }
}

pub open spec fn topic_matches(topic: Seq<char>, filter: Seq<char>) -> bool {
    matches_from(topic, filter, 0, 0)
}

proof fn lemma_level_end_bounds(t: Seq<char>, i: int)
    requires
        0 <= i <= t.len(),
    ensures
        i <= level_end(t, i) <= t.len(),
    decreases t.len() - i,
{
    if !(i >= t.len() || t[i] == '/') {
        lemma_level_end_bounds(t, i + 1);
    }
}

fn chars_of(s: &str) -> (r: Vec<char>)
    ensures
        r@ == s@,
{
    let n = s.unicode_len();
    let mut out: Vec<char> = Vec::new();
    let mut i: usize = 0;
    while i < n
        invariant
            n == s@.len(),
            i <= n,
            out@ == s@.subrange(0, i as int),
        decreases n - i,
    {
        out.push(s.get_char(i));
        i = i + 1;
        assert(out@ =~= s@.subrange(0, i as int));
    }
    assert(out@ =~= s@);
    out
}

/// Whether topic `topic_name` matches the subscription filter `sub_path`.
pub fn path_regex_match(topic_name: &str, sub_path: &str) -> (r: bool)
    ensures
        r == topic_matches(topic_name@, sub_path@),
{
    let t = chars_of(topic_name);
    let f = chars_of(sub_path);
    let tn = t.len();
    let fn_ = f.len();
    let mut i: usize = 0;
    let mut j: usize = 0;
    loop
        invariant
            t@ == topic_name@,
            f@ == sub_path@,
            tn == t@.len(),
            fn_ == f@.len(),
            i <= tn,
            j <= fn_,
            matches_from(t@, f@, i as int, j as int) == topic_matches(t@, f@),
        decreases fn_ - j, tn - i,
    {
        if j >= fn_ {
            return i >= tn;
        }
        let c = f[j];
        if c == '#' {
            return true;
        }
        if c == '+' {
            let ghost i0 = i as int;
            proof {
                lemma_level_end_bounds(t@, i0);
            }
            while i < tn && t[i] != '/'
                invariant
                    i0 <= i <= tn,
                    tn == t@.len(),
                    level_end(t@, i as int) == level_end(t@, i0),
                decreases tn - i,
            {
                i = i + 1;
            }
            j = j + 1;
        } else if fn_ - j == 2 && c == '/' && f[j + 1] == '#' && i >= tn {
            return true;
        } else {
            if i < tn && t[i] == c {
                i = i + 1;
                j = j + 1;
            } else {
                return false;
            }
        }
    }
}

} // verus!
