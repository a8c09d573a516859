use vstd::prelude::*;
use vstd::string::StrSliceExecFns;
use vstd::string::StringExecFns;

verus! {

// A placeholder is written `%{name}`: a percent sign, an opening brace, a
// non-empty run of characters other than `}`, and the first closing brace.
// Substitution rewrites every placeholder of a string to the value its name
// has in a variable table, and fails when a name is absent from the table.

/// `j` is the index of the closing brace of a placeholder standing at the
/// head of `h`: `h[j]` is the first `}` past the opening brace, and the name
/// between the braces is non-empty.
pub open spec fn ph_close_at(h: Seq<char>, j: int) -> bool {
    &&& 2 < j < h.len()
    &&& h[j] == '}'
    &&& forall|k: int| 2 <= k < j ==> h[k] != '}'
}

/// `h` begins with a well-formed placeholder `%{name}`.
pub open spec fn is_ph_start(h: Seq<char>) -> bool {
    &&& h.len() >= 4
    &&& h[0] == '%'
    &&& h[1] == '{'
    &&& exists|j: int| ph_close_at(h, j)
}

/// Index of the closing brace of the placeholder at the head of `h`.
pub open spec fn ph_close(h: Seq<char>) -> int {
    choose|j: int| ph_close_at(h, j)
}

pub proof fn lemma_ph_close_unique(h: Seq<char>, j1: int, j2: int)
    requires
        ph_close_at(h, j1),
        ph_close_at(h, j2),
    ensures
        j1 == j2,
{
    if j1 < j2 {
        assert(h[j1] != '}');
    } else if j2 < j1 {
        assert(h[j2] != '}');
    }
}

/// Name of the placeholder at the head of `h`: the text between the braces.
pub open spec fn ph_name(h: Seq<char>) -> Seq<char> {
    h.subrange(2, ph_close(h))
}

/// Replace every placeholder of `h` by its value in `m`, left to right,
/// without rescanning replaced text; `None` when a name is absent from `m`.
pub open spec fn subst(h: Seq<char>, m: Map<Seq<char>, Seq<char>>) -> Option<Seq<char>>
    decreases h.len(),
{
    if h.len() == 0 {
        Some(Seq::empty())
    } else if is_ph_start(h) {
        if m.dom().contains(ph_name(h)) {
            match subst(h.skip(ph_close(h) + 1), m) {
                Some(rest) => Some(m[ph_name(h)] + rest),
                None => None,
            }
        } else {
            None
        }
    } else {
        match subst(h.skip(1), m) {
            Some(rest) => Some(seq![h[0]] + rest),
            None => None,
        }
    }
}

/// The set of placeholder names occurring in `h`.
pub open spec fn ph_names(h: Seq<char>) -> Set<Seq<char>>
    decreases h.len(),
{
    if h.len() == 0 {
        Set::empty()
    } else if is_ph_start(h) {
        ph_names(h.skip(ph_close(h) + 1)).insert(ph_name(h))
    } else {
        ph_names(h.skip(1))
    }
}

/// `h` holds no placeholder.
pub open spec fn placeholder_free(h: Seq<char>) -> bool
    decreases h.len(),
{
    if h.len() == 0 {
        true
    } else {
        !is_ph_start(h) && placeholder_free(h.skip(1))
    }
}

/// Law: on a string without placeholders, substitution is the identity,
/// whatever the table holds.
pub proof fn lemma_subst_identity(h: Seq<char>, m: Map<Seq<char>, Seq<char>>)
    requires
        placeholder_free(h),
    ensures
        subst(h, m) == Some(h),
    decreases h.len(),
{
    if h.len() == 0 {
        assert(h =~= Seq::<char>::empty());
    } else {
        lemma_subst_identity(h.skip(1), m);
        assert(seq![h[0]] + h.skip(1) =~= h);
    }
}

/// Law: substitution succeeds exactly when every placeholder name of `h` is
/// a key of the table; a single absent name fails the whole call.
pub proof fn lemma_subst_defined(h: Seq<char>, m: Map<Seq<char>, Seq<char>>)
    ensures
        subst(h, m) is Some <==> ph_names(h).subset_of(m.dom()),
    decreases h.len(),
{
    if h.len() == 0 {
    } else if is_ph_start(h) {
        lemma_subst_defined(h.skip(ph_close(h) + 1), m);
    } else {
        lemma_subst_defined(h.skip(1), m);
    }
}

/// A table value that substitution can insert without forming new
/// placeholder text: non-empty and free of `%`, `{` and `}`.
pub open spec fn inert(v: Seq<char>) -> bool {
    &&& v.len() > 0
    &&& forall|i: int| 0 <= i < v.len() ==> v[i] != '%' && v[i] != '{' && v[i] != '}'
}

/// Every value of the table is inert.
pub open spec fn inert_values(m: Map<Seq<char>, Seq<char>>) -> bool {
    forall|k: Seq<char>| m.dom().contains(k) ==> inert(#[trigger] m[k])
}

proof fn lemma_no_percent_concat_free(a: Seq<char>, b: Seq<char>)
    requires
        forall|i: int| 0 <= i < a.len() ==> a[i] != '%',
        placeholder_free(b),
    ensures
        placeholder_free(a + b),
    decreases a.len(),
{
    if a.len() == 0 {
        assert(a + b =~= b);
    } else {
        lemma_no_percent_concat_free(a.skip(1), b);
        assert((a + b).skip(1) =~= a.skip(1) + b);
        assert(!is_ph_start(a + b));
    }
}

proof fn lemma_no_close_free(h: Seq<char>)
    requires
        forall|i: int| 0 <= i < h.len() ==> h[i] != '}',
    ensures
        placeholder_free(h),
    decreases h.len(),
{
    if h.len() > 0 {
        assert(!is_ph_start(h)) by {
            if is_ph_start(h) {
                let j = choose|j: int| ph_close_at(h, j);
                assert(h[j] != '}');
            }
        }
        assert forall|i: int| 0 <= i < h.skip(1).len() implies h.skip(1)[i] != '}' by {
            assert(h.skip(1)[i] == h[i + 1]);
        }
        lemma_no_close_free(h.skip(1));
    }
}

proof fn lemma_min_close(h: Seq<char>, lo: int)
    requires
        0 <= lo,
        exists|i: int| lo <= i < h.len() && h[i] == '}',
    ensures
        exists|j: int|
            lo <= j < h.len() && h[j] == '}' && (forall|k: int| lo <= k < j ==> h[k] != '}'),
    decreases h.len() - lo,
{
    if h[lo] == '}' {
        assert(lo <= lo < h.len() && h[lo] == '}' && (forall|k: int| lo <= k < lo ==> h[k] != '}'));
    } else {
        let i0 = choose|i: int| lo <= i < h.len() && h[i] == '}';
        assert(lo + 1 <= i0 < h.len() && h[i0] == '}');
        lemma_min_close(h, lo + 1);
        let j = choose|j: int|
            lo + 1 <= j < h.len() && h[j] == '}' && (forall|k: int| lo + 1 <= k < j ==> h[k] != '}');
        assert(forall|k: int| lo <= k < j ==> h[k] != '}');
    }
}

proof fn lemma_subst_head(t: Seq<char>, m: Map<Seq<char>, Seq<char>>, u: Seq<char>)
    requires
        inert_values(m),
        subst(t, m) == Some(u),
        t.len() > 0,
        t[0] != '{',
    ensures
        u.len() > 0,
        u[0] != '{',
{
    if is_ph_start(t) {
        assert(inert(m[ph_name(t)]));
    }
}

/// Law: with a table of inert values, a successful substitution yields a
/// placeholder-free string.
pub proof fn lemma_subst_result_free(h: Seq<char>, m: Map<Seq<char>, Seq<char>>, r: Seq<char>)
    requires
        inert_values(m),
        subst(h, m) == Some(r),
    ensures
        placeholder_free(r),
    decreases h.len(),
{
    if h.len() == 0 {
    } else if is_ph_start(h) {
        let c = ph_close(h);
        let rest = subst(h.skip(c + 1), m)->Some_0;
        lemma_subst_result_free(h.skip(c + 1), m, rest);
        assert(inert(m[ph_name(h)]));
        lemma_no_percent_concat_free(m[ph_name(h)], rest);
    } else {
        let rest = subst(h.skip(1), m)->Some_0;
        lemma_subst_result_free(h.skip(1), m, rest);
        if h[0] != '%' {
            lemma_no_percent_concat_free(seq![h[0]], rest);
        } else {
            // r == seq!['%'] + rest
            assert(r =~= seq![h[0]] + rest);
            assert(r.skip(1) =~= rest);
            if h.len() == 1 {
                assert(h.skip(1) =~= Seq::<char>::empty());
                assert(rest.len() == 0);
                assert(!is_ph_start(r));
            } else if h[1] != '{' {
                assert(h.skip(1)[0] == h[1]);
                lemma_subst_head(h.skip(1), m, rest);
                if r.len() >= 4 {
                    assert(r[1] == rest[0]);
                }
                assert(!is_ph_start(r));
            } else {
                // h[0] == '%', h[1] == '{', yet no well-formed close: either the
                // first `}` past the braces stands right after them (empty name)
                // or there is none at all.
                if exists|i: int| 2 <= i < h.len() && h[i] == '}' {
                    lemma_min_close(h, 2);
                    let j0 = choose|j: int|
                        2 <= j < h.len() && h[j] == '}' && (forall|k: int|
                            2 <= k < j ==> h[k] != '}');
                    if j0 > 2 {
                        assert(ph_close_at(h, j0));
                        assert(is_ph_start(h));
                        assert(false);
                    }
                    // j0 == 2: h[2] == '}'; the copied text keeps that brace in
                    // r[2], which blocks any close for a placeholder at r[0].
                    assert(h[2] == '}');
                    assert(h.skip(1)[0] == '{');
                    assert(!is_ph_start(h.skip(1)));
                    assert(h.skip(1).skip(1) =~= h.skip(2));
                    let rest2 = subst(h.skip(2), m)->Some_0;
                    assert(rest =~= seq![h.skip(1)[0]] + rest2);
                    assert(h.skip(2)[0] == '}');
                    assert(h.skip(2).len() > 0);
                    assert(!is_ph_start(h.skip(2)));
                    let rest3 = subst(h.skip(2).skip(1), m)->Some_0;
                    assert(rest2 == seq![h.skip(2)[0]] + rest3);
                    assert(r[2] == '}');
                    assert(!is_ph_start(r)) by {
                        if is_ph_start(r) {
                            let j = choose|j: int| ph_close_at(r, j);
                            assert(r[2] != '}');
                        }
                    }
                } else {
                    // no `}` anywhere in h, hence none in r either
                    assert forall|i: int| 0 <= i < h.skip(1).len() implies h.skip(1)[i]
                        != '}' by {
                        assert(h.skip(1)[i] == h[i + 1]);
                    }
                    lemma_no_close_free(h.skip(1));
                    lemma_subst_identity(h.skip(1), m);
                    assert(rest =~= h.skip(1));
                    assert forall|i: int| 0 <= i < r.len() implies r[i] != '}' by {
                        if i >= 1 {
                            assert(r[i] == rest[i - 1]);
                        }
                    }
                    lemma_no_close_free(r);
                }
            }
        }
    }
}

/// Law: when every placeholder name of `h` is a key of `m` and every value
/// of `m` is inert, substitution succeeds, every occurrence is replaced, and
/// substituting again in the result — with any table — changes nothing.
pub proof fn lemma_subst_idempotent(
    h: Seq<char>,
    m: Map<Seq<char>, Seq<char>>,
    m2: Map<Seq<char>, Seq<char>>,
)
    requires
        ph_names(h).subset_of(m.dom()),
        inert_values(m),
    ensures
        subst(h, m) is Some,
        placeholder_free(subst(h, m)->Some_0),
        subst(subst(h, m)->Some_0, m2) == Some(subst(h, m)->Some_0),
{
    lemma_subst_defined(h, m);
    lemma_subst_result_free(h, m, subst(h, m)->Some_0);
    lemma_subst_identity(subst(h, m)->Some_0, m2);
}

/// Law: a placeholder whose name the table lacks fails the whole call; no
/// partial replacement is handed back.
pub proof fn lemma_subst_missing(h: Seq<char>, m: Map<Seq<char>, Seq<char>>)
    requires
        !ph_names(h).subset_of(m.dom()),
    ensures
        subst(h, m) is None,
{
    lemma_subst_defined(h, m);
}

// ---------- the variable table ----------

/// The map a sequence of name/value pairs stands for; a later pair with the
/// same name overrides an earlier one.
pub open spec fn pairs_map(ps: Seq<(String, String)>) -> Map<Seq<char>, Seq<char>>
    decreases ps.len(),
{
    if ps.len() == 0 {
        Map::empty()
    } else {
        pairs_map(ps.drop_last()).insert(ps.last().0@, ps.last().1@)
    }
}

/// A table of variable names and their values, looked up by exact,
/// case-sensitive match.
pub struct VarTable {
    pairs: Vec<(String, String)>,
}

impl View for VarTable {
    type V = Map<Seq<char>, Seq<char>>;

    closed spec fn view(&self) -> Map<Seq<char>, Seq<char>> {
        pairs_map(self.pairs@)
    }
}

/// Character-exact equality of two string slices.
pub fn str_eq(a: &str, b: &str) -> (r: bool)
    ensures
        r == (a@ == b@),
{
    let n = a.unicode_len();
    let m = b.unicode_len();
    if n != m {
        return false;
    }
    let mut i: usize = 0;
    while i < n
        invariant
            n == a@.len(),
            n == b@.len(),
            0 <= i <= n,
            forall|k: int| 0 <= k < i ==> a@[k] == b@[k],
        decreases n - i,
    {
        let ca = a.get_char(i);
        let cb = b.get_char(i);
        if ca != cb {
            return false;
        }
        i += 1;
    }
    proof {
        assert(a@ =~= b@);
    }
    true
}

impl VarTable {
    /// An empty table.
    pub fn new() -> (r: VarTable)
        ensures
            r@ == Map::<Seq<char>, Seq<char>>::empty(),
    {
        VarTable { pairs: Vec::new() }
    }

    /// Bind `name` to `value`, overriding an earlier binding of the same name.
    pub fn insert(&mut self, name: &str, value: &str)
        ensures
            final(self)@ == old(self)@.insert(name@, value@),
    {
        let pair = (name.to_owned(), value.to_owned());
        self.pairs.push(pair);
        proof {
            assert(self.pairs@.drop_last() =~= old(self).pairs@);
        }
    }

    /// Look the value of `name` up.
    pub fn get(&self, name: &str) -> (r: Option<&String>)
        ensures
            r is Some <==> self@.dom().contains(name@),
            r matches Some(v) ==> self@[name@] == v@,
    {
        let mut i = self.pairs.len();
        proof {
            assert(self.pairs@.take(i as int) =~= self.pairs@);
        }
        while i > 0
            invariant
                0 <= i <= self.pairs.len(),
                self@.dom().contains(name@) <==> pairs_map(self.pairs@.take(i as int)).dom().contains(name@),
                pairs_map(self.pairs@.take(i as int)).dom().contains(name@) ==> self@[name@]
                    == pairs_map(self.pairs@.take(i as int))[name@],
            decreases i,
        {
            proof {
                assert(self.pairs@.take(i as int).drop_last() =~= self.pairs@.take(i - 1));
                assert(self.pairs@.take(i as int).last() == self.pairs@[i - 1]);
            }
            if str_eq(self.pairs[i - 1].0.as_str(), name) {
                return Some(&self.pairs[i - 1].1);
            }
            i -= 1;
        }
        proof {
            assert(self.pairs@.take(0) =~= Seq::<(String, String)>::empty());
        }
        None
    }
}

// ---------- the executable engine ----------

/// Rewrite every `%{name}` of `haystack` to the value of `name` in
/// `variables`; on a name the table lacks, fail with that name and hand no
/// partial result back.
pub fn replace_vars(haystack: &str, variables: &VarTable) -> (r: Result<String, String>)
    ensures
        r is Ok <==> subst(haystack@, variables@) is Some,
        r matches Ok(s) ==> Some(s@) == subst(haystack@, variables@),
        r matches Err(name) ==> !variables@.dom().contains(name@) && ph_names(
            haystack@,
        ).contains(name@) && subst(haystack@, variables@) is None,
{
    let n = haystack.unicode_len();
    let mut out = String::new();
    let mut i: usize = 0;
    proof {
        assert(haystack@.skip(0) =~= haystack@);
    }
    while i < n
        invariant
            n == haystack@.len(),
            0 <= i <= n,
            ph_names(haystack@.skip(i as int)).subset_of(ph_names(haystack@)),
            subst(haystack@, variables@) is Some <==> subst(
                haystack@.skip(i as int),
                variables@,
            ) is Some,
            subst(haystack@.skip(i as int), variables@) matches Some(rest) ==> subst(
                haystack@,
                variables@,
            ) == Some(out@ + rest),
        decreases n - i,
    {
        let ghost suf = haystack@.skip(i as int);
        let c = haystack.get_char(i);
        let mut plain = true;
        if c == '%' && i + 1 < n {
            if haystack.get_char(i + 1) == '{' {
                // look for the first closing brace past the opening one
                let mut j = i + 2;
                while j < n
                    invariant
                        n == haystack@.len(),
                        i + 2 <= j <= n,
                        forall|k: int| i + 2 <= k < j ==> haystack@[k] != '}',
                    ensures
                        i + 2 <= j <= n,
                        forall|k: int| i + 2 <= k < j ==> haystack@[k] != '}',
                        j < n ==> haystack@[j as int] == '}',
                    decreases n - j,
                {
                    if haystack.get_char(j) == '}' {
                        break ;
                    }
                    j += 1;
                }
                if j < n && j > i + 2 {
                    plain = false;
                    proof {
                        assert forall|k: int| 2 <= k < j - i implies suf[k] != '}' by {
                            assert(suf[k] == haystack@[k + i]);
                        }
                        assert(suf[j - i] == haystack@[j as int]);
                        assert(ph_close_at(suf, j - i));
                        assert(is_ph_start(suf));
                        lemma_ph_close_unique(suf, ph_close(suf), j - i);
                        assert(ph_close(suf) == j - i);
                    }
                    let name = haystack.substring_char(i + 2, j);
                    proof {
                        assert(name@ =~= suf.subrange(2, j - i));
                        assert(name@ == ph_name(suf));
                    }
                    match variables.get(name) {
                        Some(v) => {
                            let ghost old_out = out@;
                            out.append(v.as_str());
                            proof {
                                assert(suf.skip(j - i + 1) =~= haystack@.skip(j + 1 as int));
                                if subst(haystack@.skip(j + 1 as int), variables@) is Some {
                                    let rest2 = subst(
                                        haystack@.skip(j + 1 as int),
                                        variables@,
                                    )->Some_0;
                                    assert(subst(suf, variables@) == Some(
                                        variables@[name@] + rest2,
                                    ));
                                    assert((old_out + v@) + rest2 =~= old_out + (v@ + rest2));
                                }
                            }
                            i = j + 1;
                        },
                        None => {
                            proof {
                                assert(subst(suf, variables@) is None);
                                assert(ph_names(suf).contains(name@));
                            }
                            return Err(name.to_owned());
                        },
                    }
                } else {
                    // `%{}` or an opening with no close: not a placeholder
                    proof {
                        assert(!is_ph_start(suf)) by {
                            if is_ph_start(suf) {
                                let jr = choose|jr: int| ph_close_at(suf, jr);
                                assert(suf[jr] == haystack@[jr + i]);
                                if j == i + 2 {
                                    assert(suf[2] == haystack@[i + 2]);
                                    assert(suf[2] != '}');
                                } else {
                                    assert(haystack@[jr + i] != '}');
                                }
                            }
                        }
                    }
                }
            } else {
                proof {
                    assert(suf[1] == haystack@[i + 1]);
                    assert(!is_ph_start(suf));
                }
            }
        } else {
            proof {
                assert(suf[0] == haystack@[i as int]);
                if i + 1 >= n {
                    assert(suf.len() < 4);
                }
                assert(!is_ph_start(suf));
            }
        }
        if plain {
            // copy one character verbatim
            let ghost old_out = out@;
            let piece = haystack.substring_char(i, i + 1);
            out.append(piece);
            proof {
                assert(piece@ =~= seq![suf[0]]);
                assert(suf.skip(1) =~= haystack@.skip(i + 1 as int));
                if subst(haystack@.skip(i + 1 as int), variables@) is Some {
                    let rest2 = subst(haystack@.skip(i + 1 as int), variables@)->Some_0;
                    assert(subst(suf, variables@) == Some(seq![suf[0]] + rest2));
                    assert((old_out + piece@) + rest2 =~= old_out + (piece@ + rest2));
                }
            }
            i += 1;
        }
    }
    proof {
        assert(haystack@.skip(n as int) =~= Seq::<char>::empty());
        assert(subst(haystack@.skip(n as int), variables@) == Some(Seq::<char>::empty()));
        assert(out@ + Seq::<char>::empty() =~= out@);
    }
    Ok(out)
}

} // verus!
