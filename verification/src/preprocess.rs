use vstd::prelude::*;
use vstd::std_specs::iter::IteratorSpec;

verus! {

/// Replace every `\r\n` pair with `\n`, scanning left to right.
pub open spec fn strip_crlf(s: Seq<char>) -> Seq<char>
    decreases s.len(),
{
    if s.len() == 0 {
        Seq::empty()
    } else if s.len() >= 2 && s[0] == '\r' && s[1] == '\n' {
        seq!['\n'] + strip_crlf(s.skip(2))
    } else {
        seq![s[0]] + strip_crlf(s.skip(1))
    }
}

/// Remove every `\` immediately followed by `\n`, scanning left to right.
pub open spec fn splice_continuations(s: Seq<char>) -> Seq<char>
    decreases s.len(),
{
    if s.len() == 0 {
        Seq::empty()
    } else if s.len() >= 2 && s[0] == '\\' && s[1] == '\n' {
        splice_continuations(s.skip(2))
    } else {
        seq![s[0]] + splice_continuations(s.skip(1))
    }
}

/// `n` space characters.
pub open spec fn spaces(n: nat) -> Seq<char> {
    Seq::new(n, |i: int| ' ')
}

/// Replace every tab with exactly `n` spaces.
pub open spec fn expand_tabs(s: Seq<char>, n: nat) -> Seq<char>
    decreases s.len(),
{
    if s.len() == 0 {
        Seq::empty()
    } else if s[0] == '\t' {
        spaces(n) + expand_tabs(s.skip(1), n)
    } else {
        seq![s[0]] + expand_tabs(s.skip(1), n)
    }
}

/// The full normalization: line endings, then continuation splices, then
/// tab expansion, in that fixed order.
pub open spec fn normalize_spec(s: Seq<char>, tab_size: nat) -> Seq<char> {
    expand_tabs(splice_continuations(strip_crlf(s)), tab_size)
}

/// No `\r\n` pair occurs in `s`.
pub open spec fn has_no_crlf(s: Seq<char>) -> bool {
    forall|i: int| 0 <= i && i + 1 < s.len() ==> !(#[trigger] s[i] == '\r' && s[i + 1] == '\n')
}

/// No `\` immediately followed by `\n` occurs in `s`.
pub open spec fn has_no_continuation(s: Seq<char>) -> bool {
    forall|i: int| 0 <= i && i + 1 < s.len() ==> !(#[trigger] s[i] == '\\' && s[i + 1] == '\n')
}

/// No tab character occurs in `s`.
pub open spec fn has_no_tab(s: Seq<char>) -> bool {
    forall|i: int| 0 <= i < s.len() ==> #[trigger] s[i] != '\t'
}

pub proof fn lemma_strip_crlf_identity(s: Seq<char>)
    requires
        has_no_crlf(s),
    ensures
        strip_crlf(s) == s,
    decreases s.len(),
{
    if s.len() == 0 {
        assert(strip_crlf(s) =~= s);
    } else {
        assert(!(s.len() >= 2 && s[0] == '\r' && s[1] == '\n'));
        assert(has_no_crlf(s.skip(1))) by {
            assert(forall|i: int|
                0 <= i && i + 1 < s.skip(1).len() ==> #[trigger] s.skip(1)[i] == s[i + 1]
                    && s.skip(1)[i + 1] == s[i + 2]);
        }
        lemma_strip_crlf_identity(s.skip(1));
        assert(seq![s[0]] + s.skip(1) =~= s);
    }
}

pub proof fn lemma_splice_identity(s: Seq<char>)
    requires
        has_no_continuation(s),
    ensures
        splice_continuations(s) == s,
    decreases s.len(),
{
    if s.len() == 0 {
        assert(splice_continuations(s) =~= s);
    } else {
        assert(!(s.len() >= 2 && s[0] == '\\' && s[1] == '\n'));
        assert(has_no_continuation(s.skip(1))) by {
            assert(forall|i: int|
                0 <= i && i + 1 < s.skip(1).len() ==> #[trigger] s.skip(1)[i] == s[i + 1]
                    && s.skip(1)[i + 1] == s[i + 2]);
        }
        lemma_splice_identity(s.skip(1));
        assert(seq![s[0]] + s.skip(1) =~= s);
    }
}

pub proof fn lemma_expand_tabs_identity(s: Seq<char>, n: nat)
    requires
        has_no_tab(s),
    ensures
        expand_tabs(s, n) == s,
    decreases s.len(),
{
    if s.len() == 0 {
        assert(expand_tabs(s, n) =~= s);
    } else {
        assert(s[0] != '\t');
        assert(has_no_tab(s.skip(1))) by {
            assert(forall|i: int| 0 <= i < s.skip(1).len() ==> #[trigger] s.skip(1)[i] == s[i + 1]);
        }
        lemma_expand_tabs_identity(s.skip(1), n);
        assert(seq![s[0]] + s.skip(1) =~= s);
    }
}

/// Normalizing text that is already free of `\r\n` pairs, line
/// continuations, and tabs returns it unchanged, whatever the tab width.
pub proof fn lemma_normalize_already_normal(s: Seq<char>, tab_size: nat)
    requires
        has_no_crlf(s),
        has_no_continuation(s),
        has_no_tab(s),
    ensures
        normalize_spec(s, tab_size) == s,
{
    lemma_strip_crlf_identity(s);
    lemma_splice_identity(s);
    lemma_expand_tabs_identity(s, tab_size);
}

/// One left-to-right pass replacing every `\r\n` with `\n`.
pub fn strip_crlf_chars(v: &Vec<char>) -> (out: Vec<char>)
    ensures
        out@ == strip_crlf(v@),
{
    let mut out: Vec<char> = Vec::new();
    let n = v.len();
    let mut i: usize = 0;
    proof {
        assert(v@.skip(0) =~= v@);
        assert(Seq::<char>::empty() + strip_crlf(v@) =~= strip_crlf(v@));
    }
    while i < n
        invariant
            n == v@.len(),
            i <= n,
            strip_crlf(v@) == out@ + strip_crlf(v@.skip(i as int)),
        decreases n - i,
    {
        let ghost rest = v@.skip(i as int);
        if i + 1 < n && v[i] == '\r' && v[i + 1] == '\n' {
            proof {
                assert(rest.len() >= 2);
                assert(rest[0] == v@[i as int]);
                assert(rest[1] == v@[i as int + 1]);
                assert(rest.skip(2) =~= v@.skip(i as int + 2));
                assert(out@ + (seq!['\n'] + strip_crlf(rest.skip(2))) =~= out@.push('\n')
                    + strip_crlf(v@.skip(i as int + 2)));
            }
            out.push('\n');
            i = i + 2;
        } else {
            let c = v[i];
            proof {
                assert(rest[0] == v@[i as int]);
                assert(rest.skip(1) =~= v@.skip(i as int + 1));
                assert(out@ + (seq![v@[i as int]] + strip_crlf(rest.skip(1))) =~= out@.push(
                    v@[i as int],
                ) + strip_crlf(v@.skip(i as int + 1)));
            }
            out.push(c);
            i = i + 1;
        }
    }
    proof {
        assert(v@.skip(n as int) =~= Seq::<char>::empty());
        assert(out@ + Seq::<char>::empty() =~= out@);
    }
    out
}

/// One left-to-right pass removing every `\` that a `\n` follows.
pub fn splice_continuation_chars(v: &Vec<char>) -> (out: Vec<char>)
    ensures
        out@ == splice_continuations(v@),
{
    let mut out: Vec<char> = Vec::new();
    let n = v.len();
    let mut i: usize = 0;
    proof {
        assert(v@.skip(0) =~= v@);
        assert(Seq::<char>::empty() + splice_continuations(v@) =~= splice_continuations(v@));
    }
    while i < n
        invariant
            n == v@.len(),
            i <= n,
            splice_continuations(v@) == out@ + splice_continuations(v@.skip(i as int)),
        decreases n - i,
    {
        let ghost rest = v@.skip(i as int);
        if i + 1 < n && v[i] == '\\' && v[i + 1] == '\n' {
            proof {
                assert(rest.len() >= 2);
                assert(rest[0] == v@[i as int]);
                assert(rest[1] == v@[i as int + 1]);
                assert(rest.skip(2) =~= v@.skip(i as int + 2));
            }
            i = i + 2;
        } else {
            let c = v[i];
            proof {
                assert(rest[0] == v@[i as int]);
                assert(rest.skip(1) =~= v@.skip(i as int + 1));
                assert(out@ + (seq![v@[i as int]] + splice_continuations(rest.skip(1))) =~= out@
                    .push(v@[i as int]) + splice_continuations(v@.skip(i as int + 1)));
            }
            out.push(c);
            i = i + 1;
        }
    }
    proof {
        assert(v@.skip(n as int) =~= Seq::<char>::empty());
        assert(out@ + Seq::<char>::empty() =~= out@);
    }
    out
}

/// One left-to-right pass replacing every tab with `tab_size` spaces.
pub fn expand_tab_chars(v: &Vec<char>, tab_size: usize) -> (out: Vec<char>)
    ensures
        out@ == expand_tabs(v@, tab_size as nat),
{
    let mut out: Vec<char> = Vec::new();
    let n = v.len();
    let mut i: usize = 0;
    proof {
        assert(v@.skip(0) =~= v@);
        assert(Seq::<char>::empty() + expand_tabs(v@, tab_size as nat) =~= expand_tabs(
            v@,
            tab_size as nat,
        ));
    }
    while i < n
        invariant
            n == v@.len(),
            i <= n,
            expand_tabs(v@, tab_size as nat) == out@ + expand_tabs(
                v@.skip(i as int),
                tab_size as nat,
            ),
        decreases n - i,
    {
        let ghost rest = v@.skip(i as int);
        proof {
            assert(rest[0] == v@[i as int]);
            assert(rest.skip(1) =~= v@.skip(i as int + 1));
        }
        if v[i] == '\t' {
            let ghost base = out@;
            let mut k: usize = 0;
            while k < tab_size
                invariant
                    k <= tab_size,
                    out@ == base + spaces(k as nat),
                decreases tab_size - k,
            {
                proof {
                    assert(spaces(k as nat + 1) =~= spaces(k as nat).push(' '));
                }
                out.push(' ');
                k = k + 1;
            }
            proof {
                assert(base + spaces(tab_size as nat) + expand_tabs(
                    v@.skip(i as int + 1),
                    tab_size as nat,
                ) =~= base + (spaces(tab_size as nat) + expand_tabs(
                    v@.skip(i as int + 1),
                    tab_size as nat,
                )));
            }
            i = i + 1;
        } else {
            let c = v[i];
            proof {
                assert(out@ + (seq![v@[i as int]] + expand_tabs(rest.skip(1), tab_size as nat))
                    =~= out@.push(v@[i as int]) + expand_tabs(
                    v@.skip(i as int + 1),
                    tab_size as nat,
                ));
            }
            out.push(c);
            i = i + 1;
        }
    }
    proof {
        assert(v@.skip(n as int) =~= Seq::<char>::empty());
        assert(out@ + Seq::<char>::empty() =~= out@);
    }
    out
}

/// Full normalization of a character vector.
pub fn normalize_chars(v: &Vec<char>, tab_size: usize) -> (out: Vec<char>)
    ensures
        out@ == normalize_spec(v@, tab_size as nat),
{
    let a = strip_crlf_chars(v);
    let b = splice_continuation_chars(&a);
    expand_tab_chars(&b, tab_size)
}

/// The characters of a slice, collected in order.
fn chars_of(s: &str) -> (out: Vec<char>)
    ensures
        out@ == s@,
{
    let mut out: Vec<char> = Vec::new();
    let mut it = s.chars();
    loop
        invariant
            out@ + it.remaining() == s@,
            it.decrease() is Some,
        ensures
            out@ == s@,
        decreases it.decrease()->0,
    {
        let ghost old_it = it;
        match it.next() {
            Some(c) => {
                proof {
                    assert(old_it.remaining().len() > 0);
                    assert(out@.push(c) + it.remaining() =~= out@ + old_it.remaining());
                }
                out.push(c);
            },
            None => {
                proof {
                    assert(old_it.remaining().len() == 0);
                    assert(out@ + old_it.remaining() =~= out@);
                }
                break;
            },
        }
    }
    out
}

/// Relies on `String`'s `FromIterator<char>`: the collected characters, in
/// order.
#[verifier::external_body]
fn string_from_chars(v: &Vec<char>) -> (out: String)
    ensures
        out@ == v@,
{
    v.iter().collect()
}

/// Full normalization of source text: convert `\r\n` to `\n`, splice
/// escaped line continuations, then expand tabs to `tab_size` spaces.
pub fn normalize_text(input: &str, tab_size: usize) -> (out: String)
    ensures
        out@ == normalize_spec(input@, tab_size as nat),
{
    let v = chars_of(input);
    let w = normalize_chars(&v, tab_size);
    string_from_chars(&w)
}

} // verus!
