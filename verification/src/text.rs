//! Character-level text helpers: path segments, and the std string operations the
//! apps use.

use vstd::prelude::*;

verus! {

/// Appends one character (`String::push`).
#[verifier::external_body]
pub fn push_char(s: &mut String, c: char)
    ensures
        final(s)@ == old(s)@.push(c),
{
    s.push(c);
}

/// The pieces of `s` between separators, as `str::split` yields them.
pub open spec fn split_on(s: Seq<char>, sep: char) -> Seq<Seq<char>>
    decreases s.len(),
{
    if s.len() == 0 {
        seq![Seq::empty()]
    } else {
        let t = split_on(s.drop_last(), sep);
        if s.last() == sep {
            t.push(Seq::empty())
        } else {
            t.update(t.len() - 1, t.last().push(s.last()))
        }
    }
}

/// The text of `s` with each backslash turned into a slash.
pub open spec fn slashes(s: Seq<char>) -> Seq<char> {
    s.map_values(|c: char| if c == '\\' { '/' } else { c })
}

/// A path segment that is kept: non-empty and not `.`.
pub open spec fn kept_segment(seg: Seq<char>) -> bool {
    seg.len() > 0 && seg != seq!['.']
}

/// Segments joined by single slashes.
pub open spec fn join_slash(segs: Seq<Seq<char>>) -> Seq<char>
    decreases segs.len(),
{
    if segs.len() == 0 {
        Seq::empty()
    } else if segs.len() == 1 {
        segs[0]
    } else {
        join_slash(segs.drop_last()) + seq!['/'] + segs.last()
    }
}

/// The path's kept segments, with backslashes read as slashes.
pub open spec fn path_segments(s: Seq<char>) -> Seq<Seq<char>> {
    split_on(slashes(s), '/').filter(|seg: Seq<char>| kept_segment(seg))
}

/// A path in canonical form: a slash, then the kept segments joined by slashes.
pub open spec fn normalized_path(s: Seq<char>) -> Seq<char> {
    seq!['/'] + join_slash(path_segments(s))
}

/// Splitting never yields an empty list of pieces.
proof fn lemma_split_nonempty(s: Seq<char>, sep: char)
    ensures
        split_on(s, sep).len() >= 1,
    decreases s.len(),
{
    if s.len() > 0 {
        lemma_split_nonempty(s.drop_last(), sep);
    }
}

/// Splitting at a separator splits each side.
proof fn lemma_split_at_sep(a: Seq<char>, b: Seq<char>, sep: char)
    ensures
        split_on(a + seq![sep] + b, sep) == split_on(a, sep) + split_on(b, sep),
    decreases b.len(),
{
    lemma_split_nonempty(a, sep);
    if b.len() == 0 {
        assert((a + seq![sep] + b).drop_last() =~= a);
        assert(split_on(a, sep).push(Seq::empty()) =~= split_on(a, sep) + seq![Seq::<char>::empty()]);
    } else {
        let s = a + seq![sep] + b;
        assert(s.drop_last() =~= a + seq![sep] + b.drop_last());
        lemma_split_at_sep(a, b.drop_last(), sep);
        lemma_split_nonempty(b.drop_last(), sep);
        let x = split_on(a, sep);
        let y = split_on(b.drop_last(), sep);
        if b.last() == sep {
            assert((x + y).push(Seq::empty()) =~= x + y.push(Seq::empty()));
        } else {
            assert((x + y).update((x + y).len() - 1, (x + y).last().push(b.last()))
                =~= x + y.update(y.len() - 1, y.last().push(b.last())));
        }
    }
}

/// Text without the separator is one piece.
proof fn lemma_split_single(s: Seq<char>, sep: char)
    requires
        !s.contains(sep),
    ensures
        split_on(s, sep) == seq![s],
    decreases s.len(),
{
    if s.len() > 0 {
        assert(!s.drop_last().contains(sep)) by {
            if s.drop_last().contains(sep) {
                let i = choose|i: int| 0 <= i < s.drop_last().len() && s.drop_last()[i] == sep;
                assert(s[i] == sep);
            }
        }
        lemma_split_single(s.drop_last(), sep);
        assert(s[s.len() - 1] != sep);
        assert(s.drop_last().push(s.last()) =~= s);
    } else {
        assert(s =~= Seq::<char>::empty());
    }
}

/// Joining pieces without slashes and splitting again gives the pieces back.
proof fn lemma_split_join(segs: Seq<Seq<char>>)
    requires
        segs.len() >= 1,
        forall|i: int| 0 <= i < segs.len() ==> !(#[trigger] segs[i]).contains('/'),
    ensures
        split_on(join_slash(segs), '/') == segs,
    decreases segs.len(),
{
    if segs.len() == 1 {
        lemma_split_single(segs[0], '/');
        assert(seq![segs[0]] =~= segs);
    } else {
        lemma_split_join(segs.drop_last());
        lemma_split_at_sep(join_slash(segs.drop_last()), segs.last(), '/');
        lemma_split_single(segs.last(), '/');
        assert(segs.drop_last() + seq![segs.last()] =~= segs);
    }
}

/// Every piece of a split lacks the separator, and its characters come from the text.
proof fn lemma_split_pieces(s: Seq<char>, sep: char)
    ensures
        forall|i: int| 0 <= i < split_on(s, sep).len() ==> !(#[trigger] split_on(s, sep)[i]).contains(sep),
        forall|i: int, c: char| 0 <= i < split_on(s, sep).len() && #[trigger] split_on(s, sep)[i].contains(c)
            ==> s.contains(c),
    decreases s.len(),
{
    if s.len() > 0 {
        lemma_split_pieces(s.drop_last(), sep);
        lemma_split_nonempty(s.drop_last(), sep);
        let t = split_on(s.drop_last(), sep);
        assert forall|i: int| 0 <= i < split_on(s, sep).len() implies !(#[trigger] split_on(s, sep)[i]).contains(sep) by {
            if s.last() != sep && i == t.len() - 1 {
                let p = split_on(s, sep)[i];
                if p.contains(sep) {
                    let j = choose|j: int| 0 <= j < p.len() && p[j] == sep;
                    if j < t.last().len() {
                        assert(t.last()[j] == sep);
                        assert(t[i].contains(sep));
                    }
                }
            }
        }
        assert forall|i: int, c: char| 0 <= i < split_on(s, sep).len() && #[trigger] split_on(s, sep)[i].contains(c)
            implies s.contains(c) by {
            let p = split_on(s, sep)[i];
            let j = choose|j: int| 0 <= j < p.len() && p[j] == c;
            if s.last() != sep && i == t.len() - 1 && j == t.last().len() {
                assert(s[s.len() - 1] == c);
            } else if i < t.len() {
                assert(t[i][j] == c);
                assert(t[i].contains(c));
                let k = choose|k: int| 0 <= k < s.drop_last().len() && s.drop_last()[k] == c;
                assert(s[k] == c);
            }
        }
    }
}

/// Keeping only what every item satisfies keeps everything.
proof fn lemma_filter_all<A>(s: Seq<A>, pred: spec_fn(A) -> bool)
    requires
        forall|i: int| 0 <= i < s.len() ==> pred(#[trigger] s[i]),
    ensures
        s.filter(pred) == s,
    decreases s.len(),
{
    reveal(Seq::filter);
    if s.len() > 0 {
        lemma_filter_all(s.drop_last(), pred);
        assert(s.drop_last().push(s.last()) =~= s);
    }
}

/// Normalizing a path is idempotent, and a normalized path starts with a slash and
/// has no backslash, no empty segment and no `.` segment.
pub proof fn lemma_normalized_path_canonical(p: Seq<char>)
    ensures
        normalized_path(normalized_path(p)) == normalized_path(p),
        normalized_path(p)[0] == '/',
        !normalized_path(p).contains('\\'),
        forall|i: int| 0 <= i < path_segments(p).len() ==> kept_segment(#[trigger] path_segments(p)[i])
            && !path_segments(p)[i].contains('/'),
{
    let segs = path_segments(p);
    let x = slashes(p);
    let n = normalized_path(p);
    let pieces = split_on(x, '/');
    lemma_split_pieces(x, '/');
    assert forall|i: int| 0 <= i < segs.len() implies kept_segment(#[trigger] segs[i]) && !segs[i].contains('/')
        && !segs[i].contains('\\') by {
        assert(segs.contains(segs[i]));
        pieces.lemma_filter_contains_rev(|seg: Seq<char>| kept_segment(seg), segs[i]);
        pieces.filter_lemma(|seg: Seq<char>| kept_segment(seg));
        let k = choose|k: int| 0 <= k < pieces.len() && pieces[k] == segs[i];
        assert(!pieces[k].contains('/'));
        if segs[i].contains('\\') {
            assert(pieces[k].contains('\\'));
            assert(x.contains('\\'));
            let j = choose|j: int| 0 <= j < x.len() && x[j] == '\\';
            assert(x[j] == if p[j] == '\\' { '/' } else { p[j] });
        }
    }
    assert(!n.contains('\\')) by {
        lemma_join_no_char(segs, '\\');
        if n.contains('\\') {
            let j = choose|j: int| 0 <= j < n.len() && n[j] == '\\';
            assert(j > 0);
            assert(join_slash(segs)[j - 1] == '\\');
        }
    }
    assert(slashes(n) =~= n) by {
        assert forall|j: int| 0 <= j < n.len() implies #[trigger] slashes(n)[j] == n[j] by {
            if n[j] == '\\' {
                assert(n.contains('\\'));
            }
        }
    }
    if segs.len() == 0 {
        assert(n =~= Seq::<char>::empty() + seq!['/'] + Seq::<char>::empty());
        lemma_split_at_sep(Seq::empty(), Seq::empty(), '/');
        assert(split_on(n, '/') =~= seq![Seq::<char>::empty(), Seq::<char>::empty()]);
        reveal(Seq::filter);
        assert(seq![Seq::<char>::empty()].drop_last() =~= Seq::<Seq<char>>::empty());
        assert(split_on(n, '/').drop_last() =~= seq![Seq::<char>::empty()]);
        assert(path_segments(n) =~= Seq::<Seq<char>>::empty());
    } else {
        assert(n =~= Seq::<char>::empty() + seq!['/'] + join_slash(segs));
        lemma_split_at_sep(Seq::empty(), join_slash(segs), '/');
        lemma_split_join(segs);
        assert(split_on(Seq::<char>::empty(), '/') =~= seq![Seq::<char>::empty()]);
        Seq::filter_distributes_over_add(seq![Seq::<char>::empty()], segs, |seg: Seq<char>| kept_segment(seg));
        reveal(Seq::filter);
        assert(seq![Seq::<char>::empty()].drop_last() =~= Seq::<Seq<char>>::empty());
        let one = seq![Seq::<char>::empty()];
        let f1 = one.filter(|seg: Seq<char>| kept_segment(seg));
        one.filter_lemma(|seg: Seq<char>| kept_segment(seg));
        if f1.len() > 0 {
            assert(f1.contains(f1[0]));
            one.lemma_filter_contains_rev(|seg: Seq<char>| kept_segment(seg), f1[0]);
            assert(kept_segment(f1[0]));
        }
        assert(f1 =~= Seq::<Seq<char>>::empty());
        lemma_filter_all(segs, |seg: Seq<char>| kept_segment(seg));
        assert(path_segments(n) =~= segs);
    }
}

/// Joined segments hold only the segments' characters and slashes.
proof fn lemma_join_no_char(segs: Seq<Seq<char>>, c: char)
    requires
        c != '/',
        forall|i: int| 0 <= i < segs.len() ==> !(#[trigger] segs[i]).contains(c),
    ensures
        !join_slash(segs).contains(c),
    decreases segs.len(),
{
    if segs.len() == 1 {
    } else if segs.len() > 1 {
        lemma_join_no_char(segs.drop_last(), c);
        let j0 = join_slash(segs.drop_last());
        let j = join_slash(segs);
        if j.contains(c) {
            let k = choose|k: int| 0 <= k < j.len() && j[k] == c;
            if k < j0.len() {
                assert(j0[k] == c);
            } else if k > j0.len() {
                assert(segs.last()[k - j0.len() - 1] == c);
                assert(segs[segs.len() - 1].contains(c));
            }
        }
    }
}

proof fn lemma_join_push(segs: Seq<Seq<char>>, x: Seq<char>)
    ensures
        join_slash(segs.push(x)) == if segs.len() == 0 { x } else { join_slash(segs) + seq!['/'] + x },
{
    assert(segs.push(x).drop_last() =~= segs);
}

/// The kept segments of a path, in order.
pub fn path_segments_exec(path: &str) -> (r: Vec<Vec<char>>)
    ensures
        r@.map_values(|v: Vec<char>| v@) == path_segments(path@),
{
    let ghost pred = |seg: Seq<char>| kept_segment(seg);
    let mut segs: Vec<Vec<char>> = Vec::new();
    let mut cur: Vec<char> = Vec::new();
    let ghost mut all: Seq<Seq<char>> = Seq::empty();
    let ghost s = slashes(path@);
    for c in it: path.chars()
        invariant
            s == slashes(path@),
            pred == (|seg: Seq<char>| kept_segment(seg)),
            it.seq() == path@,
            split_on(s.take(it.index() as int), '/') == all.push(cur@),
            segs@.map_values(|v: Vec<char>| v@) == all.filter(pred),
    {
        let ghost k = it.index() as int;
        proof {
            assert(s.take(k + 1).drop_last() =~= s.take(k));
            assert(s.take(k + 1).last() == s[k]);
        }
        if c == '/' || c == '\\' {
            proof {
                all.lemma_filter_push(cur@, pred);
            }
            let keep = keep_segment(&cur);
            let done = cur;
            cur = Vec::new();
            let ghost dv = done@;
            if keep {
                segs.push(done);
                assert(segs@.map_values(|v: Vec<char>| v@) =~= all.filter(pred).push(dv));
            }
            proof {
                all = all.push(dv);
                assert(split_on(s.take(k + 1), '/') =~= all.push(cur@));
            }
        } else {
            cur.push(c);
            proof {
                assert(split_on(s.take(k + 1), '/') =~= all.push(cur@));
            }
        }
    }
    proof {
        assert(s.take(path@.len() as int) =~= s);
        all.lemma_filter_push(cur@, pred);
    }
    if keep_segment(&cur) {
        let ghost dv = cur@;
        segs.push(cur);
        assert(segs@.map_values(|v: Vec<char>| v@) =~= all.filter(pred).push(dv));
    }
    segs
}

/// Whether a segment is kept (non-empty and not `.`).
fn keep_segment(seg: &Vec<char>) -> (r: bool)
    ensures
        r == kept_segment(seg@),
{
    let r = seg.len() > 0 && !(seg.len() == 1 && seg[0] == '.');
    proof {
        if seg@.len() == 1 && seg@[0] == '.' {
            assert(seg@ =~= seq!['.']);
        }
        if seg@ == seq!['.'] {
            assert(seg@.len() == 1 && seg@[0] == '.');
        }
    }
    r
}

/// Appends the characters of `seg`.
pub fn push_chars(out: &mut String, seg: &Vec<char>)
    ensures
        final(out)@ == old(out)@ + seg@,
{
    let mut j: usize = 0;
    while j < seg.len()
        invariant
            j <= seg@.len(),
            out@ == old(out)@ + seg@.take(j as int),
        decreases seg@.len() - j,
    {
        push_char(out, seg[j]);
        assert(seg@.take(j + 1) =~= seg@.take(j as int).push(seg@[j as int]));
        j = j + 1;
    }
    assert(seg@.take(seg@.len() as int) =~= seg@);
}

/// A slash, then the first `n` segments joined by slashes.
pub fn join_path(segs: &Vec<Vec<char>>, n: usize) -> (r: String)
    requires
        n <= segs@.len(),
    ensures
        r@ == seq!['/'] + join_slash(segs@.map_values(|v: Vec<char>| v@).take(n as int)),
{
    let ghost segv = segs@.map_values(|v: Vec<char>| v@);
    let mut out = String::new();
    push_char(&mut out, '/');
    let mut i: usize = 0;
    while i < n
        invariant
            i <= n,
            n <= segs@.len(),
            segv == segs@.map_values(|v: Vec<char>| v@),
            out@ == seq!['/'] + join_slash(segv.take(i as int)),
        decreases n - i,
    {
        proof {
            assert(segv.take(i + 1) =~= segv.take(i as int).push(segv[i as int]));
            lemma_join_push(segv.take(i as int), segv[i as int]);
        }
        if i > 0 {
            push_char(&mut out, '/');
        }
        push_chars(&mut out, &segs[i]);
        i = i + 1;
    }
    out
}

/// The canonical form of a path (`/` for a path with no kept segment).
pub fn normalize_path_chars(path: &str) -> (r: String)
    ensures
        r@ == normalized_path(path@),
{
    let segs = path_segments_exec(path);
    let r = join_path(&segs, segs.len());
    assert(segs@.map_values(|v: Vec<char>| v@).take(segs@.len() as int) =~= segs@.map_values(|v: Vec<char>| v@));
    r
}

/// A `String` holding the characters of `v`.
pub fn string_of(v: &Vec<char>) -> (r: String)
    ensures
        r@ == v@,
{
    let mut out = String::new();
    push_chars(&mut out, v);
    out
}

/// The decimal digit for `d` (0 to 9).
pub open spec fn digit_char(d: nat) -> char {
    (48 + d) as char
}

/// The decimal numeral of `n`, without leading zeros.
pub open spec fn decimal(n: nat) -> Seq<char>
    decreases n,
{
    if n < 10 { seq![digit_char(n)] } else { decimal(n / 10).push(digit_char(n % 10)) }
}

/// `u64::to_string`: the number's decimal numeral.
#[verifier::external_body]
pub fn decimal_text(n: u64) -> (r: String)
    ensures
        r@ == decimal(n as nat),
{
    n.to_string()
}

/// The decimal numerals of the bytes, separated by `", "`.
pub open spec fn decimal_list(s: Seq<u8>) -> Seq<char>
    decreases s.len(),
{
    if s.len() == 0 {
        Seq::empty()
    } else if s.len() == 1 {
        decimal(s[0] as nat)
    } else {
        decimal_list(s.drop_last()) + ", "@ + decimal(s.last() as nat)
    }
}

/// The `Debug` text of a byte array or slice: its numerals in square brackets.
pub open spec fn bytes_debug(s: Seq<u8>) -> Seq<char> {
    "["@ + decimal_list(s) + "]"@
}

/// Writes the bytes as `format!("{:?}", bytes)` does.
pub fn bytes_debug_text(bytes: &[u8]) -> (r: String)
    ensures
        r@ == bytes_debug(bytes@),
{
    let mut out = "[".to_string();
    let mut i: usize = 0;
    while i < bytes.len()
        invariant
            i <= bytes@.len(),
            out@ == "["@ + decimal_list(bytes@.take(i as int)),
        decreases bytes@.len() - i,
    {
        proof {
            assert(bytes@.take(i + 1).drop_last() =~= bytes@.take(i as int));
            assert(bytes@.take(i + 1).last() == bytes@[i as int]);
        }
        if i > 0 {
            vstd::string::StringExecFns::append(&mut out, ", ");
        }
        let d = decimal_text(bytes[i] as u64);
        vstd::string::StringExecFns::append(&mut out, d.as_str());
        proof {
            if i == 0 {
                assert(bytes@.take(1) =~= seq![bytes@[0]]);
                assert(out@ =~= "["@ + decimal_list(bytes@.take(1)));
            } else {
                assert(out@ =~= "["@ + decimal_list(bytes@.take(i + 1)));
            }
        }
        i = i + 1;
    }
    assert(bytes@.take(bytes@.len() as int) =~= bytes@);
    vstd::string::StringExecFns::append(&mut out, "]");
    out
}

/// The `Debug` text of a string (`format!("{:?}", s)`).
pub uninterp spec fn str_debug(s: Seq<char>) -> Seq<char>;

/// `str`'s `Debug` text: the string in double quotes, escaped as
/// `str::escape_debug` does; the escapes themselves are left unsaid.
#[verifier::external_body]
pub fn str_debug_text(s: &str) -> (r: String)
    ensures
        r@ == str_debug(s@),
{
    format!("{:?}", s)
}

/// The text after the last `sep` (all of `s` when there is none), as `split(sep).last()`.
pub fn last_piece(s: &str, sep: char) -> (r: String)
    ensures
        r@ == split_on(s@, sep).last(),
{
    let mut cur: Vec<char> = Vec::new();
    let ghost mut all: Seq<Seq<char>> = Seq::empty();
    for c in it: s.chars()
        invariant
            it.seq() == s@,
            split_on(s@.take(it.index() as int), sep) == all.push(cur@),
    {
        let ghost k = it.index() as int;
        proof {
            assert(s@.take(k + 1).drop_last() =~= s@.take(k));
        }
        if c == sep {
            proof {
                all = all.push(cur@);
            }
            cur = Vec::new();
            assert(split_on(s@.take(k + 1), sep) =~= all.push(cur@));
        } else {
            cur.push(c);
            assert(split_on(s@.take(k + 1), sep) =~= all.push(cur@));
        }
    }
    assert(s@.take(s@.len() as int) =~= s@);
    string_of(&cur)
}

/// Whether `s` holds two dots in a row.
pub open spec fn has_double_dot(s: Seq<char>) -> bool {
    exists|i: int| 0 <= i < s.len() - 1 && #[trigger] s[i] == '.' && s[i + 1] == '.'
}

/// Whether the text holds `..` or a NUL character.
pub fn has_traversal(s: &str) -> (r: bool)
    ensures
        r == (has_double_dot(s@) || s@.contains('\0')),
{
    let mut prev_dot = false;
    let mut found = false;
    for c in it: s.chars()
        invariant
            it.seq() == s@,
            prev_dot == (it.index() > 0 && s@[it.index() - 1] == '.'),
            found == (has_double_dot(s@.take(it.index() as int)) || s@.take(it.index() as int).contains('\0')),
    {
        let ghost k = it.index() as int;
        proof {
            let t = s@.take(k + 1);
            assert(s@.take(k) =~= t.drop_last());
            if has_double_dot(t) {
                let i = choose|i: int| 0 <= i < t.len() - 1 && #[trigger] t[i] == '.' && t[i + 1] == '.';
                if i < k - 1 {
                    assert(s@.take(k)[i] == '.');
                }
            }
            if has_double_dot(s@.take(k)) {
                let i = choose|i: int| 0 <= i < k - 1 && #[trigger] s@.take(k)[i] == '.' && s@.take(k)[i + 1] == '.';
                assert(t[i] == '.');
            }
            if c == '.' && prev_dot {
                assert(t[k - 1] == '.' && t[k] == '.');
            }
            if t.contains('\0') {
                let i = choose|i: int| 0 <= i < t.len() && t[i] == '\0';
                if i < k {
                    assert(s@.take(k)[i] == '\0');
                }
            }
            if s@.take(k).contains('\0') {
                let i = choose|i: int| 0 <= i < k && s@.take(k)[i] == '\0';
                assert(t[i] == '\0');
            }
            if c == '\0' {
                assert(t[k] == '\0');
            }
        }
        if c == '\0' || (c == '.' && prev_dot) {
            found = true;
        }
        prev_dot = c == '.';
    }
    assert(s@.take(s@.len() as int) =~= s@);
    found
}

/// The characters of a string slice, in order.
pub fn chars_of(s: &str) -> (r: Vec<char>)
    ensures
        r@ == s@,
{
    let mut out: Vec<char> = Vec::new();
    for c in it: s.chars()
        invariant
            it.seq() == s@,
            out@ == s@.take(it.index() as int),
    {
        let ghost k = it.index() as int;
        out.push(c);
        assert(s@.take(k + 1) =~= s@.take(k).push(c));
    }
    assert(s@.take(s@.len() as int) =~= s@);
    out
}

/// A `String` holding the characters `v[from..to]`.
pub fn string_of_range(v: &Vec<char>, from: usize, to: usize) -> (r: String)
    requires
        from <= to <= v@.len(),
    ensures
        r@ == v@.subrange(from as int, to as int),
{
    let mut out = String::new();
    let mut j = from;
    while j < to
        invariant
            from <= j <= to,
            to <= v@.len(),
            out@ == v@.subrange(from as int, j as int),
        decreases to - j,
    {
        push_char(&mut out, v[j]);
        assert(v@.subrange(from as int, j + 1) =~= v@.subrange(from as int, j as int).push(v@[j as int]));
        j = j + 1;
    }
    out
}

/// The first position at or after `from` holding `c` (`s.len()` when none does).
pub open spec fn find_char(s: Seq<char>, c: char, from: int) -> int
    decreases s.len() - from,
{
    if from >= s.len() {
        s.len() as int
    } else if s[from] == c {
        from
    } else {
        find_char(s, c, from + 1)
    }
}

pub fn find_char_exec(v: &Vec<char>, c: char, from: usize) -> (r: usize)
    requires
        from <= v@.len(),
    ensures
        r == find_char(v@, c, from as int),
        from <= r <= v@.len(),
{
    let mut i = from;
    while i < v.len() && v[i] != c
        invariant
            from <= i <= v@.len(),
            find_char(v@, c, i as int) == find_char(v@, c, from as int),
        decreases v@.len() - i,
    {
        i = i + 1;
    }
    i
}

/// The lowercase mapping of a string (Unicode rules, as `str::to_lowercase` applies them).
pub uninterp spec fn lowercase(s: Seq<char>) -> Seq<char>;

/// `str::to_lowercase`. Claimed: the result is a function of the text.
#[verifier::external_body]
pub fn to_lowercase(s: &str) -> (r: String)
    ensures
        r@ == lowercase(s@),
{
    s.to_lowercase()
}

/// The UTF-8 encoding of a concatenation is the concatenation of the encodings.
pub proof fn lemma_utf8_concat(a: Seq<char>, b: Seq<char>)
    ensures
        vstd::utf8::encode_utf8(a + b) == vstd::utf8::encode_utf8(a) + vstd::utf8::encode_utf8(b),
    decreases a.len(),
{
    if a.len() == 0 {
        assert(a + b =~= b);
        assert(vstd::utf8::encode_utf8(a) =~= Seq::<u8>::empty());
        assert(vstd::utf8::encode_utf8(a) + vstd::utf8::encode_utf8(b) =~= vstd::utf8::encode_utf8(b));
    } else {
        lemma_utf8_concat(a.drop_first(), b);
        assert((a + b).drop_first() =~= a.drop_first() + b);
        assert((a + b)[0] == a[0]);
        let e0 = vstd::utf8::encode_scalar(a[0] as u32);
        assert(e0 + (vstd::utf8::encode_utf8(a.drop_first()) + vstd::utf8::encode_utf8(b))
            =~= (e0 + vstd::utf8::encode_utf8(a.drop_first())) + vstd::utf8::encode_utf8(b));
    }
}

/// Whether a character has the Unicode `White_Space` property.
pub uninterp spec fn whitespace(c: char) -> bool;

/// `char::is_whitespace`. Claimed: the answer is a function of the character.
#[verifier::external_body]
pub fn is_whitespace_char(c: char) -> (r: bool)
    ensures
        r == whitespace(c),
{
    c.is_whitespace()
}

/// Whether a character is alphabetic or numeric in Unicode's sense.
pub uninterp spec fn alphanumeric(c: char) -> bool;

/// `char::is_alphanumeric`. Claimed: the answer is a function of the character.
#[verifier::external_body]
pub fn is_alphanumeric_char(c: char) -> (r: bool)
    ensures
        r == alphanumeric(c),
{
    c.is_alphanumeric()
}

/// The words finished so far and the word in progress, scanning `s` left to right.
pub open spec fn ws_scan(s: Seq<char>) -> (Seq<Seq<char>>, Seq<char>)
    decreases s.len(),
{
    if s.len() == 0 {
        (Seq::empty(), Seq::empty())
    } else {
        let (done, cur) = ws_scan(s.drop_last());
        let c = s.last();
        if whitespace(c) {
            if cur.len() > 0 { (done.push(cur), Seq::empty()) } else { (done, Seq::empty()) }
        } else {
            (done, cur.push(c))
        }
    }
}

/// The maximal runs of non-whitespace characters, as `str::split_whitespace` yields them.
pub open spec fn ws_words(s: Seq<char>) -> Seq<Seq<char>> {
    let (done, cur) = ws_scan(s);
    if cur.len() > 0 { done.push(cur) } else { done }
}

/// `str::split_whitespace`, collected.
pub fn split_whitespace_exec(s: &str) -> (r: Vec<Vec<char>>)
    ensures
        r@.map_values(|w: Vec<char>| w@) == ws_words(s@),
{
    let v = chars_of(s);
    let mut done: Vec<Vec<char>> = Vec::new();
    let mut cur: Vec<char> = Vec::new();
    let mut i: usize = 0;
    while i < v.len()
        invariant
            i <= v@.len(),
            v@ == s@,
            (done@.map_values(|w: Vec<char>| w@), cur@) == ws_scan(v@.take(i as int)),
        decreases v@.len() - i,
    {
        proof {
            assert(v@.take(i + 1).drop_last() =~= v@.take(i as int));
        }
        let c = v[i];
        if is_whitespace_char(c) {
            if cur.len() > 0 {
                let w = cur;
                done.push(w);
                cur = Vec::new();
                proof {
                    assert(done@.map_values(|w: Vec<char>| w@) =~= ws_scan(v@.take(i as int)).0.push(ws_scan(v@.take(i as int)).1));
                }
            }
        } else {
            cur.push(c);
        }
        proof {
            assert(cur@ =~= ws_scan(v@.take(i + 1)).1);
            assert(done@.map_values(|w: Vec<char>| w@) =~= ws_scan(v@.take(i + 1)).0);
        }
        i = i + 1;
    }
    proof {
        assert(v@.take(v@.len() as int) =~= v@);
    }
    if cur.len() > 0 {
        let w = cur;
        done.push(w);
        proof {
            assert(done@.map_values(|w: Vec<char>| w@) =~= ws_scan(s@).0.push(ws_scan(s@).1));
        }
    }
    done
}

/// The alphanumeric characters of `w`, in order.
pub open spec fn keep_alnum(w: Seq<char>) -> Seq<char>
    decreases w.len(),
{
    if w.len() == 0 {
        w
    } else if alphanumeric(w.last()) {
        keep_alnum(w.drop_last()).push(w.last())
    } else {
        keep_alnum(w.drop_last())
    }
}

/// A word reduced to its alphanumeric characters, lowercased.
pub open spec fn clean_word(w: Seq<char>) -> Seq<char> {
    lowercase(keep_alnum(w))
}

pub fn clean_word_exec(w: &Vec<char>) -> (r: String)
    ensures
        r@ == clean_word(w@),
{
    let mut kept = String::new();
    let mut i: usize = 0;
    while i < w.len()
        invariant
            i <= w@.len(),
            kept@ == keep_alnum(w@.take(i as int)),
        decreases w@.len() - i,
    {
        proof {
            assert(w@.take(i + 1).drop_last() =~= w@.take(i as int));
        }
        if is_alphanumeric_char(w[i]) {
            push_char(&mut kept, w[i]);
        }
        i = i + 1;
    }
    proof {
        assert(w@.take(w@.len() as int) =~= w@);
    }
    to_lowercase(kept.as_str())
}

/// The value of a run of decimal digits.
pub open spec fn digits_value(d: Seq<char>) -> nat
    decreases d.len(),
{
    if d.len() == 0 { 0 } else { digits_value(d.drop_last()) * 10 + ((d.last() as nat) - 48) as nat }
}

pub open spec fn all_digits(d: Seq<char>) -> bool {
    forall|i: int| 0 <= i < d.len() ==> '0' <= #[trigger] d[i] <= '9'
}

/// `str::parse::<u64>`: an optional `+`, then at least one digit, worth at most `u64::MAX`.
pub open spec fn parse_u64(s: Seq<char>) -> Option<u64> {
    let d = if s.len() > 0 && s[0] == '+' { s.skip(1) } else { s };
    if d.len() > 0 && all_digits(d) && digits_value(d) <= u64::MAX { Some(digits_value(d) as u64) } else { None }
}

/// `str::parse::<u64>`, its error as its `Display` text.
/// Claimed, as the `from_str_radix` documentation gives it: success exactly on an
/// optional `+` followed by one or more ASCII digits whose value fits, with that
/// value. The wording of the error text is left unsaid.
#[verifier::external_body]
pub fn parse_u64_text(s: &str) -> (r: Result<u64, String>)
    ensures
        r is Ok <==> parse_u64(s@) is Some,
        r matches Ok(v) ==> parse_u64(s@) == Some(v),
{
    match s.parse::<u64>() {
        Ok(v) => Ok(v),
        Err(e) => Err(e.to_string()),
    }
}

/// `str::split` on one character, collected.
pub fn split_on_exec(v: &Vec<char>, sep: char) -> (r: Vec<Vec<char>>)
    ensures
        r@.map_values(|w: Vec<char>| w@) == split_on(v@, sep),
        r@.len() >= 1,
{
    let mut done: Vec<Vec<char>> = Vec::new();
    let mut cur: Vec<char> = Vec::new();
    let mut i: usize = 0;
    proof {
        assert(v@.take(0) =~= Seq::<char>::empty());
        assert(done@.map_values(|w: Vec<char>| w@).push(cur@) =~= split_on(v@.take(0), sep));
    }
    while i < v.len()
        invariant
            i <= v@.len(),
            done@.map_values(|w: Vec<char>| w@).push(cur@) == split_on(v@.take(i as int), sep),
        decreases v@.len() - i,
    {
        proof {
            assert(v@.take(i + 1).drop_last() =~= v@.take(i as int));
        }
        let ghost before = done@.map_values(|w: Vec<char>| w@).push(cur@);
        if v[i] == sep {
            let w = cur;
            done.push(w);
            cur = Vec::new();
            proof {
                assert(done@.map_values(|w: Vec<char>| w@).push(cur@) =~= before.push(Seq::empty()));
            }
        } else {
            cur.push(v[i]);
            proof {
                assert(done@.map_values(|w: Vec<char>| w@).push(cur@) =~= before.update(before.len() - 1, before.last().push(v@[i as int])));
            }
        }
        i = i + 1;
    }
    proof {
        assert(v@.take(v@.len() as int) =~= v@);
    }
    let w = cur;
    done.push(w);
    done
}


/// A text without the separator splits into itself alone.
pub proof fn lemma_split_no_sep(s: Seq<char>, sep: char)
    requires
        !s.contains(sep),
    ensures
        split_on(s, sep) == seq![s],
    decreases s.len(),
{
    if s.len() > 0 {
        assert(!s.drop_last().contains(sep)) by {
            if s.drop_last().contains(sep) {
                let i = choose|i: int| 0 <= i < s.drop_last().len() && s.drop_last()[i] == sep;
                assert(s[i] == sep);
            }
        }
        lemma_split_no_sep(s.drop_last(), sep);
        assert(s.last() != sep) by {
            assert(s[s.len() - 1] == s.last());
        }
        assert(s.drop_last().push(s.last()) =~= s);
        assert(seq![s.drop_last()].update(0, s.drop_last().push(s.last())) =~= seq![s]);
    } else {
        assert(s =~= Seq::<char>::empty());
    }
}

/// Text, a separator, then text without one, splits into the pieces of the first
/// text followed by the last text.
pub proof fn lemma_split_append(x: Seq<char>, y: Seq<char>, sep: char)
    requires
        !y.contains(sep),
    ensures
        split_on(x.push(sep) + y, sep) == split_on(x, sep).push(y),
    decreases y.len(),
{
    if y.len() == 0 {
        assert(x.push(sep) + y =~= x.push(sep));
        assert(x.push(sep).drop_last() =~= x);
        assert(y =~= Seq::<char>::empty());
    } else {
        let z = x.push(sep) + y;
        assert(!y.drop_last().contains(sep)) by {
            if y.drop_last().contains(sep) {
                let i = choose|i: int| 0 <= i < y.drop_last().len() && y.drop_last()[i] == sep;
                assert(y[i] == sep);
            }
        }
        lemma_split_append(x, y.drop_last(), sep);
        assert(z.drop_last() =~= x.push(sep) + y.drop_last());
        assert(z.last() == y.last());
        assert(y.last() != sep) by {
            assert(y[y.len() - 1] == y.last());
        }
        assert(y.drop_last().push(y.last()) =~= y);
        let t = split_on(x, sep).push(y.drop_last());
        assert(t.update(t.len() - 1, t.last().push(z.last())) =~= split_on(x, sep).push(y));
    }
}

/// The decimal numeral of `n` is a non-empty run of digits worth `n`.
pub proof fn lemma_decimal_digits(n: nat)
    ensures
        decimal(n).len() > 0,
        all_digits(decimal(n)),
        digits_value(decimal(n)) == n,
    decreases n,
{
    if n >= 10 {
        lemma_decimal_digits(n / 10);
        let d = decimal(n / 10);
        assert(decimal(n).drop_last() =~= d);
        assert(decimal(n).last() == digit_char(n % 10));
        assert(digit_char(n % 10) as nat == 48 + n % 10);
        assert(digits_value(decimal(n)) == digits_value(d) * 10 + n % 10);
        assert((n / 10) * 10 + n % 10 == n);
        assert(all_digits(decimal(n))) by {
            assert forall|i: int| 0 <= i < decimal(n).len() implies '0' <= #[trigger] decimal(n)[i] <= '9' by {
                if i < d.len() {
                    assert(decimal(n)[i] == d[i]);
                }
            }
        }
    } else {
        assert(decimal(n).drop_last() =~= Seq::<char>::empty());
        assert(digits_value(Seq::<char>::empty()) == 0);
        assert(digit_char(n) as nat == 48 + n);
        assert(decimal(n).last() == digit_char(n));
        assert(digits_value(decimal(n)) == n);
    }
}

/// `str::parse::<u64>` reads a number's decimal numeral back.
pub proof fn lemma_parse_decimal(n: u64)
    ensures
        parse_u64(decimal(n as nat)) == Some(n),
{
    lemma_decimal_digits(n as nat);
    let d = decimal(n as nat);
    assert('0' <= d[0] <= '9');
}

} // verus!
