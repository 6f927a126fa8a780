//! Paths as sequences of components, and the component-wise prefix test.
//!
//! A path is read the way `std::path::Path` reads it, in one of two styles.
//!
//! In the Unix style, `/` separates components: a leading `/` is the root
//! component, a leading `.` followed by `/` (or alone) is the current-directory
//! component, and the rest splits on `/` into pieces, of which empty pieces and
//! `.` pieces are dropped.
//!
//! In the Windows style, `\` and `/` both separate components, and a path may
//! begin with a prefix: a drive (`C:`), a UNC share (`\\server\share`), a
//! device (`\\.\COM1`) or a verbatim prefix (`\\?\name`, `\\?\C:`,
//! `\\?\UNC\server\share`). After a verbatim prefix only `\` separates, and
//! `.` pieces are kept as current-directory components. After a drive
//! prefix with no root (`C:.\foo`), a leading `.` is the current-directory
//! component. A UNC or device prefix is followed by a root component even
//! where no separator follows it.
//! Two drive prefixes are the same component when their letters agree without
//! regard to case; every other component compares exactly.
//!
//! Each component is written as text: a piece as itself, the root as the
//! separator (`/` or `\`), the current directory as `.`, and a prefix as `\`,
//! a letter for its kind and its parts, which no piece can be.

use vstd::prelude::*;

verus! {

/// How paths are read: as `std::path` reads them on Unix, or on Windows.
#[derive(Clone, Copy, Debug, PartialEq, Eq, Structural)]
pub enum PathStyle {
    /// `/` separates components.
    Unix,
    /// `\` and `/` separate components, and a path may begin with a prefix.
    Windows,
}

/// Whether the platform treats `\` as a separator, as
/// `std::path::is_separator` reports it. Nothing is promised of the result:
/// it depends on the platform the program was built for.
#[verifier::external_body]
fn backslash_separates() -> bool {
    std::path::is_separator('\\')
}

/// The style of a platform on which `\` does (Windows) or does not (Unix)
/// separate components.
pub fn style_for(backslash_is_separator: bool) -> (r: PathStyle)
    ensures
        r == (if backslash_is_separator {
            PathStyle::Windows
        } else {
            PathStyle::Unix
        }),
{
    if backslash_is_separator {
        PathStyle::Windows
    } else {
        PathStyle::Unix
    }
}

/// The style of the platform this program runs on: Windows where `\`
/// separates components, Unix elsewhere. Which of the two that is depends on
/// the platform, so nothing more is stated of the result; [`style_for`] says
/// what each answer of the platform gives.
pub fn native_style() -> PathStyle {
    style_for(backslash_separates())
}

/// Whether `c` separates components; after a verbatim prefix only `\` does.
pub open spec fn is_sep(style: PathStyle, verbatim: bool, c: char) -> bool {
    match style {
        PathStyle::Unix => c == '/',
        PathStyle::Windows => c == '\\' || (!verbatim && c == '/'),
    }
}

/// The text of the root component.
pub open spec fn root_text(style: PathStyle) -> Seq<char> {
    match style {
        PathStyle::Unix => seq!['/'],
        PathStyle::Windows => seq!['\\'],
    }
}

/// Appends the piece under construction to `acc`, unless it is empty, or is
/// `.` and dots are not kept.
pub open spec fn flush_piece(acc: Seq<Seq<char>>, cur: Seq<char>, keep_dot: bool) -> Seq<Seq<char>> {
    if cur.len() == 0 || (!keep_dot && cur == seq!['.']) {
        acc
    } else {
        acc.push(cur)
    }
}

/// Scans `s` from the left: the pieces completed so far, and the piece that
/// the last separator left open.
pub open spec fn scan_pieces(style: PathStyle, verbatim: bool, s: Seq<char>) -> (Seq<Seq<char>>, Seq<char>)
    decreases s.len(),
{
    if s.len() == 0 {
        (Seq::empty(), Seq::empty())
    } else {
        let prev = scan_pieces(style, verbatim, s.drop_last());
        if is_sep(style, verbatim, s.last()) {
            (flush_piece(prev.0, prev.1, verbatim), Seq::empty())
        } else {
            (prev.0, prev.1.push(s.last()))
        }
    }
}

/// The pieces of `s` between separators, in order, without empty pieces and
/// (unless after a verbatim prefix) without `.` pieces.
pub open spec fn path_pieces(style: PathStyle, verbatim: bool, s: Seq<char>) -> Seq<Seq<char>> {
    flush_piece(scan_pieces(style, verbatim, s).0, scan_pieces(style, verbatim, s).1, verbatim)
}

/// Whether `s` begins with a separator.
pub open spec fn lead_root(style: PathStyle, s: Seq<char>) -> bool {
    s.len() > 0 && is_sep(style, false, s[0])
}

/// Whether `s` begins with the current-directory component.
pub open spec fn lead_cur_dir(style: PathStyle, s: Seq<char>) -> bool {
    s.len() > 0 && s[0] == '.' && (s.len() == 1 || is_sep(style, false, s[1]))
}

/// The components of a path without prefix.
pub open spec fn plain_components(style: PathStyle, s: Seq<char>) -> Seq<Seq<char>> {
    (if lead_root(style, s) { seq![root_text(style)] } else { Seq::empty() }) + (if lead_cur_dir(
        style,
        s,
    ) {
        seq![seq!['.']]
    } else {
        Seq::empty()
    }) + path_pieces(style, false, s)
}

/// The next part of `s`: the text up to the first separator, and what follows
/// that separator (nothing if there is none).
pub open spec fn next_part(s: Seq<char>, verbatim: bool) -> (Seq<char>, Seq<char>)
    decreases s.len(),
{
    if s.len() == 0 {
        (Seq::empty(), Seq::empty())
    } else if is_sep(PathStyle::Windows, verbatim, s[0]) {
        (Seq::empty(), s.drop_first())
    } else {
        let r = next_part(s.drop_first(), verbatim);
        (seq![s[0]] + r.0, r.1)
    }
}

/// Whether `c` is an ASCII letter.
pub open spec fn is_letter(c: char) -> bool {
    ('a' <= c && c <= 'z') || ('A' <= c && c <= 'Z')
}

/// The ASCII letter `c` in upper case.
pub open spec fn upper(c: char) -> char {
    if 'a' <= c && c <= 'z' {
        ((c as u32) - 32) as char
    } else {
        c
    }
}

/// Whether `s` begins with a drive: a letter and `:`.
pub open spec fn is_drive(s: Seq<char>) -> bool {
    s.len() >= 2 && is_letter(s[0]) && s[1] == ':'
}

/// The text of a prefix component of the given kind.
pub open spec fn tagged(kind: char, s: Seq<char>) -> Seq<char> {
    seq!['\\', kind] + s
}

/// The prefix that begins the Windows path `s`, if any: its component text,
/// its length in `s`, whether it is verbatim, and whether a root component
/// follows it without a separator.
pub open spec fn win_prefix(s: Seq<char>) -> Option<(Seq<char>, int, bool, bool)> {
    if s.len() >= 2 && is_sep(PathStyle::Windows, false, s[0]) && is_sep(PathStyle::Windows, false, s[1]) {
        if s.len() >= 4 && s[0] == '\\' && s[1] == '\\' && s[2] == '?' && s[3] == '\\' {
            let u = s.skip(4);
            if u.len() >= 4 && u[0] == 'U' && u[1] == 'N' && u[2] == 'C' && is_sep(
                PathStyle::Windows,
                false,
                u[3],
            ) {
                let server = next_part(s.skip(8), true);
                let share = next_part(server.1, true).0;
                Some(
                    (
                        tagged('W', server.0 + seq!['\\'] + share),
                        if share.len() > 0 {
                            (8 + server.0.len() + 1 + share.len()) as int
                        } else {
                            (8 + server.0.len()) as int
                        },
                        true,
                        false,
                    ),
                )
            } else if is_drive(u) && (u.len() == 2 || u[2] == '\\') {
                Some((tagged('E', seq![upper(u[0])]), 6, true, false))
            } else {
                let name = next_part(u, true).0;
                Some((tagged('V', name), (4 + name.len()) as int, true, false))
            }
        } else if s.len() >= 4 && s[2] == '.' && is_sep(PathStyle::Windows, false, s[3]) {
            let name = next_part(s.skip(4), false).0;
            Some((tagged('N', name), (4 + name.len()) as int, false, true))
        } else {
            let server = next_part(s.skip(2), false);
            let share = next_part(server.1, false).0;
            if server.0.len() > 0 && share.len() > 0 {
                Some(
                    (
                        tagged('U', server.0 + seq!['\\'] + share),
                        (2 + server.0.len() + 1 + share.len()) as int,
                        false,
                        true,
                    ),
                )
            } else {
                None
            }
        }
    } else if is_drive(s) {
        Some((tagged('D', seq![upper(s[0])]), 2, false, false))
    } else {
        None
    }
}

/// The components of the path `s` read in `style`, each written as text.
pub open spec fn path_components(style: PathStyle, s: Seq<char>) -> Seq<Seq<char>> {
    match style {
        PathStyle::Unix => plain_components(style, s),
        PathStyle::Windows => match win_prefix(s) {
            None => plain_components(style, s),
            Some(pre) => {
                let rest = s.skip(pre.1);
                seq![pre.0] + (if lead_root(style, rest) || pre.3 {
                    seq![root_text(style)]
                } else if lead_cur_dir(style, rest) {
                    seq![seq!['.']]
                } else {
                    Seq::empty()
                }) + path_pieces(style, pre.2, rest)
            },
        },
    }
}

/// Whether `base` is a prefix of `path`, comparing whole components only.
pub open spec fn path_starts_with(style: PathStyle, path: Seq<char>, base: Seq<char>) -> bool {
    path_components(style, base).is_prefix_of(path_components(style, path))
}


proof fn lemma_flush_append(a: Seq<Seq<char>>, b: Seq<Seq<char>>, cur: Seq<char>, keep_dot: bool)
    ensures
        flush_piece(a + b, cur, keep_dot) == a + flush_piece(b, cur, keep_dot),
{
    if !(cur.len() == 0 || (!keep_dot && cur == seq!['.'])) {
        assert((a + b).push(cur) =~= a + b.push(cur));
    }
}

/// Scanning `x + t`, where `x` leaves no piece open, continues with the scan of `t`.
proof fn lemma_scan_after_closed(style: PathStyle, verbatim: bool, x: Seq<char>, t: Seq<char>)
    requires
        scan_pieces(style, verbatim, x).1.len() == 0,
    ensures
        scan_pieces(style, verbatim, x + t) == (
            scan_pieces(style, verbatim, x).0 + scan_pieces(style, verbatim, t).0,
            scan_pieces(style, verbatim, t).1,
        ),
    decreases t.len(),
{
    let a = scan_pieces(style, verbatim, x).0;
    if t.len() == 0 {
        assert(x + t =~= x);
        assert(a + Seq::<Seq<char>>::empty() =~= a);
    } else {
        lemma_scan_after_closed(style, verbatim, x, t.drop_last());
        assert((x + t).drop_last() =~= x + t.drop_last());
        assert((x + t).last() == t.last());
        let b = scan_pieces(style, verbatim, t.drop_last());
        if is_sep(style, verbatim, t.last()) {
            lemma_flush_append(a, b.0, b.1, verbatim);
        }
    }
}

/// The pieces of `x`, a separator and `rest` are those of `x` followed by
/// those of `rest`.
proof fn lemma_pieces_of_join(style: PathStyle, verbatim: bool, x: Seq<char>, sep: char, rest: Seq<char>)
    requires
        is_sep(style, verbatim, sep),
    ensures
        path_pieces(style, verbatim, x + seq![sep] + rest) == path_pieces(style, verbatim, x) + path_pieces(
            style,
            verbatim,
            rest,
        ),
{
    let d = x + seq![sep];
    assert(d.drop_last() =~= x);
    assert(scan_pieces(style, verbatim, d).0 == path_pieces(style, verbatim, x));
    assert(scan_pieces(style, verbatim, d).1.len() == 0);
    lemma_scan_after_closed(style, verbatim, d, rest);
    lemma_flush_append(
        path_pieces(style, verbatim, x),
        scan_pieces(style, verbatim, rest).0,
        scan_pieces(style, verbatim, rest).1,
        verbatim,
    );
}

/// Law: in the Unix style, the components of `dir/rest` are those of `dir`
/// followed by the pieces of `rest`, whenever `dir` is not empty.
pub proof fn lemma_components_of_join(dir: Seq<char>, rest: Seq<char>)
    requires
        dir.len() > 0,
    ensures
        path_components(PathStyle::Unix, dir + seq!['/'] + rest) == path_components(PathStyle::Unix, dir)
            + path_pieces(PathStyle::Unix, false, rest),
{
    let u = PathStyle::Unix;
    let full = dir + seq!['/'] + rest;
    lemma_pieces_of_join(u, false, dir, '/', rest);
    assert(full[0] == dir[0]);
    if dir.len() == 1 {
        assert(full[1] == '/');
    } else {
        assert(full[1] == dir[1]);
    }
    assert(lead_root(u, full) == lead_root(u, dir));
    assert(lead_cur_dir(u, full) == lead_cur_dir(u, dir));
    let lead = (if lead_root(u, dir) { seq![root_text(u)] } else { Seq::<Seq<char>>::empty() }) + (
    if lead_cur_dir(u, dir) {
        seq![seq!['.']]
    } else {
        Seq::<Seq<char>>::empty()
    });
    assert(lead + (path_pieces(u, false, dir) + path_pieces(u, false, rest)) =~= (lead + path_pieces(
        u,
        false,
        dir,
    )) + path_pieces(u, false, rest));
}

/// Law: in the Windows style, anything below a directory that begins with a
/// drive and a root (such as `C:\Games`) starts with that directory.
pub proof fn lemma_inside_drive_dir_starts_with(dir: Seq<char>, rest: Seq<char>)
    requires
        dir.len() >= 3,
        is_drive(dir),
        is_sep(PathStyle::Windows, false, dir[2]),
    ensures
        path_starts_with(PathStyle::Windows, dir + seq!['\\'] + rest, dir),
{
    let w = PathStyle::Windows;
    let full = dir + seq!['\\'] + rest;
    assert(full[0] == dir[0] && full[1] == dir[1] && full[2] == dir[2]);
    assert(win_prefix(full) == win_prefix(dir));
    let d = dir.skip(2);
    assert(full.skip(2) =~= d + seq!['\\'] + rest);
    lemma_pieces_of_join(w, false, d, '\\', rest);
    assert(d[0] == dir[2]);
    assert(full.skip(2)[0] == dir[2]);
    let c = path_components(w, dir);
    let cf = path_components(w, full);
    assert(cf =~= c + path_pieces(w, false, rest));
    assert(c =~= cf.subrange(0, c.len() as int));
}

/// Law: in the Unix style, anything below a directory starts with that
/// directory.
pub proof fn lemma_inside_dir_starts_with(dir: Seq<char>, rest: Seq<char>)
    requires
        dir.len() > 0,
    ensures
        path_starts_with(PathStyle::Unix, dir + seq!['/'] + rest, dir),
{
    lemma_components_of_join(dir, rest);
    let c = path_components(PathStyle::Unix, dir);
    assert(c =~= (c + path_pieces(PathStyle::Unix, false, rest)).subrange(0, c.len() as int));
}

/// A text without separators leaves everything in one open piece.
proof fn lemma_scan_without_sep(style: PathStyle, verbatim: bool, s: Seq<char>)
    requires
        forall|i: int| 0 <= i < s.len() ==> !is_sep(style, verbatim, #[trigger] s[i]),
    ensures
        scan_pieces(style, verbatim, s) == (Seq::<Seq<char>>::empty(), s),
    decreases s.len(),
{
    if s.len() > 0 {
        let t = s.drop_last();
        assert forall|i: int| 0 <= i < t.len() implies !is_sep(style, verbatim, #[trigger] t[i]) by {
            assert(t[i] == s[i]);
        }
        lemma_scan_without_sep(style, verbatim, t);
        assert(!is_sep(style, verbatim, s[s.len() - 1]));
        assert(t.push(s.last()) =~= s);
    }
}

/// Law: in the Unix style only `/` separates: a non-empty text without `/`
/// other than `.` is one piece and one component, itself (so `Portal 2` is
/// one component, not two).
pub proof fn lemma_unix_single_piece(s: Seq<char>)
    requires
        s.len() > 0,
        s != seq!['.'],
        forall|i: int| 0 <= i < s.len() ==> #[trigger] s[i] != '/',
    ensures
        path_pieces(PathStyle::Unix, false, s) == seq![s],
        path_components(PathStyle::Unix, s) == seq![s],
{
    lemma_scan_without_sep(PathStyle::Unix, false, s);
    assert(s[0] != '/');
    if s.len() > 1 {
        assert(s[1] != '/');
    }
    if s[0] == '.' && s.len() == 1 {
        assert(s =~= seq!['.']);
    }
    assert(Seq::<Seq<char>>::empty().push(s) =~= seq![s]);
    assert(Seq::<Seq<char>>::empty() + Seq::<Seq<char>>::empty() + seq![s] =~= seq![s]);
}

/// Law: in the Unix style, `/a/rest` never starts with `/b` when `a` and `b`
/// are different single pieces: only whole components match.
pub proof fn lemma_unix_whole_components(a: Seq<char>, b: Seq<char>, rest: Seq<char>)
    requires
        a.len() > 0,
        a != seq!['.'],
        forall|i: int| 0 <= i < a.len() ==> #[trigger] a[i] != '/',
        b.len() > 0,
        b != seq!['.'],
        forall|i: int| 0 <= i < b.len() ==> #[trigger] b[i] != '/',
        a != b,
    ensures
        !path_starts_with(PathStyle::Unix, seq!['/'] + a + seq!['/'] + rest, seq!['/'] + b),
{
    let u = PathStyle::Unix;
    lemma_unix_single_piece(a);
    lemma_unix_single_piece(b);
    let da = seq!['/'] + a;
    let db = seq!['/'] + b;
    lemma_pieces_of_join(u, false, Seq::<char>::empty(), '/', a);
    lemma_pieces_of_join(u, false, Seq::<char>::empty(), '/', b);
    assert(Seq::<char>::empty() + seq!['/'] + a =~= da);
    assert(Seq::<char>::empty() + seq!['/'] + b =~= db);
    assert(scan_pieces(u, false, Seq::<char>::empty()) == (Seq::<Seq<char>>::empty(), Seq::<char>::empty()));
    assert(path_pieces(u, false, da) =~= seq![a]);
    assert(path_pieces(u, false, db) =~= seq![b]);
    assert(da[0] == '/' && db[0] == '/');
    assert(path_components(u, da) =~= seq![seq!['/'], a]);
    assert(path_components(u, db) =~= seq![seq!['/'], b]);
    lemma_components_of_join(da, rest);
    let ca = path_components(u, da + seq!['/'] + rest);
    assert(ca[1] == a);
    assert(path_components(u, db)[1] == b);
}

/// Law: in the Unix style, a doubled `/` and a `./` inside a path change
/// nothing: `dir//rest` and `dir/./rest` have the components of `dir/rest`.
pub proof fn lemma_unix_empty_and_dot_pieces(dir: Seq<char>, rest: Seq<char>)
    requires
        dir.len() > 0,
    ensures
        path_components(PathStyle::Unix, dir + seq!['/'] + (seq!['/'] + rest)) == path_components(
            PathStyle::Unix,
            dir + seq!['/'] + rest,
        ),
        path_components(PathStyle::Unix, dir + seq!['/'] + (seq!['.', '/'] + rest)) == path_components(
            PathStyle::Unix,
            dir + seq!['/'] + rest,
        ),
{
    let u = PathStyle::Unix;
    lemma_components_of_join(dir, rest);
    lemma_components_of_join(dir, seq!['/'] + rest);
    lemma_components_of_join(dir, seq!['.', '/'] + rest);
    let e = Seq::<char>::empty();
    lemma_pieces_of_join(u, false, e, '/', rest);
    assert(e + seq!['/'] + rest =~= seq!['/'] + rest);
    assert(scan_pieces(u, false, e) == (Seq::<Seq<char>>::empty(), e));
    assert(path_pieces(u, false, e) =~= Seq::<Seq<char>>::empty());
    assert(path_pieces(u, false, seq!['/'] + rest) =~= path_pieces(u, false, rest));
    let d = seq!['.'];
    lemma_pieces_of_join(u, false, d, '/', rest);
    assert(d + seq!['/'] + rest =~= seq!['.', '/'] + rest);
    assert(d.drop_last() =~= e);
    assert(scan_pieces(u, false, d) == (Seq::<Seq<char>>::empty(), d));
    assert(path_pieces(u, false, d) =~= Seq::<Seq<char>>::empty());
    assert(path_pieces(u, false, seq!['.', '/'] + rest) =~= path_pieces(u, false, rest));
}

/// Law: in the Windows style a non-empty text without `\` or `/`, other than
/// `.` and not beginning with a drive, is one component, itself.
pub proof fn lemma_windows_single_piece(s: Seq<char>)
    requires
        s.len() > 0,
        s != seq!['.'],
        forall|i: int| 0 <= i < s.len() ==> #[trigger] s[i] != '/' && s[i] != '\\',
        !(s.len() >= 2 && s[1] == ':'),
    ensures
        path_components(PathStyle::Windows, s) == seq![s],
{
    lemma_scan_without_sep(PathStyle::Windows, false, s);
    assert(s[0] != '/' && s[0] != '\\');
    if s.len() > 1 {
        assert(s[1] != '/' && s[1] != '\\');
    }
    if s[0] == '.' && s.len() == 1 {
        assert(s =~= seq!['.']);
    }
    assert(win_prefix(s) is None);
    assert(Seq::<Seq<char>>::empty().push(s) =~= seq![s]);
    assert(Seq::<Seq<char>>::empty() + Seq::<Seq<char>>::empty() + seq![s] =~= seq![s]);
}

/// The directories for which the law below is stated: in the Unix style any
/// non-empty path; in the Windows style a path that begins with a drive and a
/// root (such as `C:\Games`).
pub open spec fn joinable_dir(style: PathStyle, dir: Seq<char>) -> bool {
    match style {
        PathStyle::Unix => dir.len() > 0,
        PathStyle::Windows => dir.len() >= 3 && is_drive(dir) && is_sep(style, false, dir[2]),
    }
}

/// Law: anything below such a directory, joined to it with the separator,
/// starts with that directory.
pub proof fn lemma_inside_starts_with(style: PathStyle, dir: Seq<char>, rest: Seq<char>)
    requires
        joinable_dir(style, dir),
    ensures
        path_starts_with(style, dir + root_text(style) + rest, dir),
{
    match style {
        PathStyle::Unix => lemma_inside_dir_starts_with(dir, rest),
        PathStyle::Windows => lemma_inside_drive_dir_starts_with(dir, rest),
    }
}

/// Law: every path starts with itself.
pub proof fn lemma_starts_with_reflexive(style: PathStyle, p: Seq<char>)
    ensures
        path_starts_with(style, p, p),
{
    let c = path_components(style, p);
    assert(c =~= c.subrange(0, c.len() as int));
}

/// Law: a prefix of a prefix is a prefix.
pub proof fn lemma_starts_with_transitive(style: PathStyle, a: Seq<char>, b: Seq<char>, c: Seq<char>)
    requires
        path_starts_with(style, a, b),
        path_starts_with(style, b, c),
    ensures
        path_starts_with(style, a, c),
{
    let ca = path_components(style, a);
    let cb = path_components(style, b);
    let cc = path_components(style, c);
    assert forall|i: int| 0 <= i < cc.len() implies cc[i] == ca[i] by {
        assert(cc[i] == cb.subrange(0, cc.len() as int)[i]);
        assert(cb[i] == ca.subrange(0, cb.len() as int)[i]);
    }
    assert(cc =~= ca.subrange(0, cc.len() as int));
}

/// Law: in the Windows style, two paths that differ only in the case of a
/// leading drive letter have the same components.
pub proof fn lemma_drive_letter_case(s: Seq<char>, t: Seq<char>)
    requires
        is_drive(s),
        t.len() == s.len(),
        upper(t[0]) == upper(s[0]),
        is_letter(t[0]),
        forall|i: int| 1 <= i < s.len() ==> s[i] == t[i],
    ensures
        path_components(PathStyle::Windows, s) == path_components(PathStyle::Windows, t),
{
    assert(s.skip(2) =~= t.skip(2));
}

/// Whether `c` separates components.
fn sep_char(style: PathStyle, verbatim: bool, c: char) -> (r: bool)
    ensures
        r == is_sep(style, verbatim, c),
{
    match style {
        PathStyle::Unix => c == '/',
        PathStyle::Windows => c == '\\' || (!verbatim && c == '/'),
    }
}

/// The text `p[from..to]` as characters.
fn chars_of(p: &str, from: usize, to: usize) -> (r: Vec<char>)
    requires
        from <= to <= p@.len(),
    ensures
        r@ == p@.subrange(from as int, to as int),
{
    let mut r: Vec<char> = Vec::new();
    let mut i = from;
    while i < to
        invariant
            from <= i <= to <= p@.len(),
            r@ == p@.subrange(from as int, i as int),
        decreases to - i,
    {
        r.push(p.get_char(i));
        assert(r@ =~= p@.subrange(from as int, i + 1));
        i = i + 1;
    }
    r
}

/// What `next_part` gives for a text whose first separator is at `k` (or
/// that has none, when `k` is its length).
proof fn lemma_next_part(s: Seq<char>, verbatim: bool, k: int)
    requires
        0 <= k <= s.len(),
        forall|j: int| 0 <= j < k ==> !is_sep(PathStyle::Windows, verbatim, #[trigger] s[j]),
        k < s.len() ==> is_sep(PathStyle::Windows, verbatim, s[k]),
    ensures
        next_part(s, verbatim) == (s.take(k), if k < s.len() {
            s.skip(k + 1)
        } else {
            Seq::<char>::empty()
        }),
    decreases k,
{
    if k > 0 {
        let t = s.drop_first();
        assert forall|j: int| 0 <= j < k - 1 implies !is_sep(PathStyle::Windows, verbatim, #[trigger] t[j]) by {
            assert(t[j] == s[j + 1]);
        }
        lemma_next_part(t, verbatim, k - 1);
        assert(seq![s[0]] + t.take(k - 1) =~= s.take(k));
        if k < s.len() {
            assert(t.skip(k) =~= s.skip(k + 1));
        }
    } else if s.len() == 0 {
        assert(s.take(0) =~= Seq::<char>::empty());
    } else {
        assert(s.take(0) =~= Seq::<char>::empty());
        assert(s.drop_first() =~= s.skip(1));
    }
}

/// The next part of `p[from..]`: where its text ends, and where what follows
/// its separator begins.
fn next_part_at(p: &str, from: usize, verbatim: bool) -> (r: (usize, usize))
    requires
        from <= p@.len(),
    ensures
        from <= r.0 <= r.1 <= p@.len(),
        r.1 == r.0 + 1 || r.1 == r.0 == p@.len(),
        next_part(p@.skip(from as int), verbatim) == (p@.subrange(from as int, r.0 as int), p@.skip(
            r.1 as int,
        )),
{
    let len = p.unicode_len();
    let mut j = from;
    while j < len && !sep_char(PathStyle::Windows, verbatim, p.get_char(j))
        invariant
            from <= j <= len,
            len == p@.len(),
            forall|q: int| from <= q < j ==> !is_sep(PathStyle::Windows, verbatim, #[trigger] p@[q]),
        decreases len - j,
    {
        j = j + 1;
    }
    let ghost s = p@.skip(from as int);
    assert forall|q: int| 0 <= q < j - from implies !is_sep(PathStyle::Windows, verbatim, #[trigger] s[q]) by {
        assert(s[q] == p@[from + q]);
    }
    proof {
        lemma_next_part(s, verbatim, j - from);
    }
    assert(s.take(j - from) =~= p@.subrange(from as int, j as int));
    if j < len {
        assert(s.skip(j - from + 1) =~= p@.skip(j + 1));
        (j, j + 1)
    } else {
        assert(p@.skip(len as int) =~= Seq::<char>::empty());
        (j, len)
    }
}

/// The ASCII letter `c` in upper case.
fn upper_char(c: char) -> (r: char)
    ensures
        r == upper(c),
{
    if 'a' <= c && c <= 'z' {
        ((c as u8) - 32) as char
    } else {
        c
    }
}

/// The text of a prefix component of the given kind: `\`, the kind, `part`.
fn tagged_text(kind: char, part: Vec<char>) -> (r: Vec<char>)
    ensures
        r@ == tagged(kind, part@),
{
    let mut r: Vec<char> = Vec::new();
    r.push('\\');
    r.push(kind);
    let mut i: usize = 0;
    while i < part.len()
        invariant
            i <= part.len(),
            r@ == tagged(kind, part@.take(i as int)),
        decreases part.len() - i,
    {
        r.push(part[i]);
        assert(part@.take(i + 1) =~= part@.take(i as int).push(part@[i as int]));
        assert(r@ =~= tagged(kind, part@.take(i + 1)));
        i = i + 1;
    }
    assert(part@.take(part.len() as int) =~= part@);
    r
}

/// A server and a share written as one part: `server\share`.
fn two_parts(p: &str, a: usize, b: usize, c: usize, d: usize) -> (r: Vec<char>)
    requires
        a <= b <= p@.len(),
        c <= d <= p@.len(),
    ensures
        r@ == p@.subrange(a as int, b as int) + seq!['\\'] + p@.subrange(c as int, d as int),
{
    let mut r = chars_of(p, a, b);
    r.push('\\');
    let tail = chars_of(p, c, d);
    let mut i: usize = 0;
    let ghost head = r@;
    while i < tail.len()
        invariant
            i <= tail.len(),
            r@ == head + tail@.take(i as int),
        decreases tail.len() - i,
    {
        r.push(tail[i]);
        assert(tail@.take(i + 1) =~= tail@.take(i as int).push(tail@[i as int]));
        assert(r@ =~= head + tail@.take(i + 1));
        i = i + 1;
    }
    assert(tail@.take(tail.len() as int) =~= tail@);
    r
}

/// The prefix that begins the Windows path `p`, as `win_prefix` gives it.
fn windows_prefix(p: &str) -> (r: Option<(Vec<char>, usize, bool, bool)>)
    ensures
        match r {
            None => win_prefix(p@) is None,
            Some(x) => win_prefix(p@) == Some((x.0@, x.1 as int, x.2, x.3)) && x.1 <= p@.len(),
        },
{
    let len = p.unicode_len();
    let ghost s = p@;
    if len >= 2 && sep_char(PathStyle::Windows, false, p.get_char(0)) && sep_char(
        PathStyle::Windows,
        false,
        p.get_char(1),
    ) {
        if len >= 4 && p.get_char(0) == '\\' && p.get_char(1) == '\\' && p.get_char(2) == '?'
            && p.get_char(3) == '\\' {
            let ghost u = s.skip(4);
            assert(len < 8 || (u[0] == s[4] && u[1] == s[5] && u[2] == s[6] && u[3] == s[7]));
            if len >= 8 && p.get_char(4) == 'U' && p.get_char(5) == 'N' && p.get_char(6) == 'C'
                && sep_char(PathStyle::Windows, false, p.get_char(7)) {
                let (e1, r1) = next_part_at(p, 8, true);
                let (e2, _) = next_part_at(p, r1, true);
                let text = tagged_text('W', two_parts(p, 8, e1, r1, e2));
                let n = if e2 > r1 {
                    e2
                } else {
                    e1
                };
                Some((text, n, true, false))
            } else if len >= 6 && ('a' <= p.get_char(4) && p.get_char(4) <= 'z' || 'A' <= p.get_char(4)
                && p.get_char(4) <= 'Z') && p.get_char(5) == ':' && (len == 6 || p.get_char(6) == '\\') {
                assert(u[0] == s[4] && u[1] == s[5]);
                assert(u.len() == 2 || u[2] == s[6]);
                let mut letter: Vec<char> = Vec::new();
                letter.push(upper_char(p.get_char(4)));
                assert(letter@ =~= seq![upper(u[0])]);
                Some((tagged_text('E', letter), 6, true, false))
            } else {
                proof {
                    if u.len() >= 2 {
                        assert(u[0] == s[4] && u[1] == s[5]);
                    }
                    if u.len() >= 3 {
                        assert(u[2] == s[6]);
                    }
                }
                let (e, _) = next_part_at(p, 4, true);
                Some((tagged_text('V', chars_of(p, 4, e)), e, true, false))
            }
        } else if len >= 4 && p.get_char(2) == '.' && sep_char(PathStyle::Windows, false, p.get_char(3)) {
            let (e, _) = next_part_at(p, 4, false);
            Some((tagged_text('N', chars_of(p, 4, e)), e, false, true))
        } else {
            let (e1, r1) = next_part_at(p, 2, false);
            let (e2, _) = next_part_at(p, r1, false);
            if e1 > 2 && e2 > r1 {
                Some((tagged_text('U', two_parts(p, 2, e1, r1, e2)), e2, false, true))
            } else {
                None
            }
        }
    } else if len >= 2 && ('a' <= p.get_char(0) && p.get_char(0) <= 'z' || 'A' <= p.get_char(0)
        && p.get_char(0) <= 'Z') && p.get_char(1) == ':' {
        let mut letter: Vec<char> = Vec::new();
        letter.push(upper_char(p.get_char(0)));
        assert(letter@ =~= seq![upper(s[0])]);
        Some((tagged_text('D', letter), 2, false, false))
    } else {
        None
    }
}

/// Appends the piece `p[start..end]` to `out`, unless it is empty, or is `.`
/// and dots are not kept.
fn push_piece(out: &mut Vec<Vec<char>>, p: &str, start: usize, end: usize, keep_dot: bool)
    requires
        start <= end <= p@.len(),
    ensures
        final(out).deep_view() == flush_piece(
            old(out).deep_view(),
            p@.subrange(start as int, end as int),
            keep_dot,
        ),
{
    let ghost cur = p@.subrange(start as int, end as int);
    let is_dot = end - start == 1 && p.get_char(start) == '.';
    if end - start == 1 {
        assert(cur[0] == p@[start as int]);
        assert(is_dot == (cur =~= seq!['.']));
    } else {
        assert(cur.len() != 1);
    }
    if end > start && (keep_dot || !is_dot) {
        let piece = chars_of(p, start, end);
        let ghost before = out.deep_view();
        assert(piece.deep_view() =~= piece@);
        out.push(piece);
        assert(out.deep_view() =~= before.push(cur));
    }
}

/// A vector holding the one character `c`.
fn single(c: char) -> (r: Vec<char>)
    ensures
        r@ == seq![c],
{
    let mut r: Vec<char> = Vec::new();
    r.push(c);
    assert(r@ =~= seq![c]);
    r
}

/// The components of `p` read in `style`, as `Path::new(p).components()`
/// yields them on that platform, each written as text.
pub fn components(style: PathStyle, p: &str) -> (r: Vec<Vec<char>>)
    ensures
        r.deep_view() == path_components(style, p@),
{
    let len = p.unicode_len();
    let mut out: Vec<Vec<char>> = Vec::new();
    let pre = match style {
        PathStyle::Windows => windows_prefix(p),
        PathStyle::Unix => None,
    };
    let mut off: usize = 0;
    let mut verbatim = false;
    match pre {
        Some(x) => {
            let (text, n, verb, implicit_root) = x;
            assert(text.deep_view() =~= text@);
            out.push(text);
            off = n;
            verbatim = verb;
            if (n < len && sep_char(style, false, p.get_char(n))) || implicit_root {
                let root = single('\\');
                assert(root.deep_view() =~= root@);
                out.push(root);
            } else if n < len && p.get_char(n) == '.' && (n + 1 == len || sep_char(
                style,
                false,
                p.get_char(n + 1),
            )) {
                let dot = single('.');
                assert(dot.deep_view() =~= dot@);
                out.push(dot);
            }
            proof {
                let rest = p@.skip(n as int);
                if n < len {
                    assert(rest[0] == p@[n as int]);
                }
                if n + 1 < len {
                    assert(rest[1] == p@[n + 1]);
                }
                assert(out.deep_view() =~= seq![x.0@] + (if lead_root(style, rest) || x.3 {
                    seq![root_text(style)]
                } else if lead_cur_dir(style, rest) {
                    seq![seq!['.']]
                } else {
                    Seq::empty()
                }));
            }
        },
        None => {
            if len > 0 && sep_char(style, false, p.get_char(0)) {
                let root = match style {
                    PathStyle::Unix => single('/'),
                    PathStyle::Windows => single('\\'),
                };
                assert(root.deep_view() =~= root@);
                out.push(root);
            }
            if len > 0 && p.get_char(0) == '.' && (len == 1 || sep_char(style, false, p.get_char(1))) {
                let dot = single('.');
                assert(dot.deep_view() =~= dot@);
                out.push(dot);
            }
            assert(out.deep_view() =~= (if lead_root(style, p@) {
                seq![root_text(style)]
            } else {
                Seq::empty()
            }) + (if lead_cur_dir(style, p@) {
                seq![seq!['.']]
            } else {
                Seq::empty()
            }));
        },
    }
    let ghost lead = out.deep_view();
    let mut i: usize = off;
    let mut start: usize = off;
    assert(p@.subrange(off as int, off as int) =~= Seq::<char>::empty());
    assert(lead + Seq::<Seq<char>>::empty() =~= lead);
    while i < len
        invariant
            len == p@.len(),
            off <= start <= i <= len,
            out.deep_view() == lead + scan_pieces(style, verbatim, p@.subrange(off as int, i as int)).0,
            scan_pieces(style, verbatim, p@.subrange(off as int, i as int)).1 == p@.subrange(
                start as int,
                i as int,
            ),
        decreases len - i,
    {
        let c = p.get_char(i);
        let ghost prev = scan_pieces(style, verbatim, p@.subrange(off as int, i as int));
        assert(p@.subrange(off as int, i + 1).drop_last() =~= p@.subrange(off as int, i as int));
        assert(p@.subrange(off as int, i + 1).last() == c);
        if sep_char(style, verbatim, c) {
            push_piece(&mut out, p, start, i, verbatim);
            proof {
                lemma_flush_append(lead, prev.0, prev.1, verbatim);
            }
            start = i + 1;
            assert(p@.subrange(start as int, i + 1) =~= Seq::<char>::empty());
        } else {
            assert(p@.subrange(start as int, i + 1) =~= p@.subrange(start as int, i as int).push(c));
        }
        i = i + 1;
    }
    let ghost rest = p@.subrange(off as int, len as int);
    assert(rest =~= p@.skip(off as int));
    push_piece(&mut out, p, start, len, verbatim);
    proof {
        lemma_flush_append(lead, scan_pieces(style, verbatim, rest).0, scan_pieces(style, verbatim, rest).1, verbatim);
        assert(p@.skip(0) =~= p@);
    }
    out
}

/// Whether two texts are the same.
fn same_text(a: &Vec<char>, b: &Vec<char>) -> (r: bool)
    ensures
        r == (a@ == b@),
{
    if a.len() != b.len() {
        return false;
    }
    let mut i: usize = 0;
    while i < a.len()
        invariant
            a.len() == b.len(),
            i <= a.len(),
            forall|k: int| 0 <= k < i ==> a@[k] == b@[k],
        decreases a.len() - i,
    {
        if a[i] != b[i] {
            return false;
        }
        i = i + 1;
    }
    assert(a@ =~= b@);
    true
}

/// Whether `base` is a prefix of `path`, component by component.
pub fn components_prefix(base: &Vec<Vec<char>>, path: &Vec<Vec<char>>) -> (r: bool)
    ensures
        r == base.deep_view().is_prefix_of(path.deep_view()),
{
    if base.len() > path.len() {
        return false;
    }
    let mut j: usize = 0;
    while j < base.len()
        invariant
            base.len() <= path.len(),
            j <= base.len(),
            forall|k: int| 0 <= k < j ==> base.deep_view()[k] == path.deep_view()[k],
        decreases base.len() - j,
    {
        assert(base@[j as int].deep_view() =~= base@[j as int]@);
        assert(path@[j as int].deep_view() =~= path@[j as int]@);
        if !same_text(&base[j], &path[j]) {
            assert(base.deep_view()[j as int] != path.deep_view().subrange(0, base.len() as int)[j as int]);
            return false;
        }
        j = j + 1;
    }
    assert(base.deep_view() =~= path.deep_view().subrange(0, base.len() as int));
    true
}

/// Whether `base` is a prefix of `path`, both read in `style`, as
/// `Path::starts_with` decides it: only whole components match.
pub fn starts_with(style: PathStyle, path: &str, base: &str) -> (r: bool)
    ensures
        r == path_starts_with(style, path@, base@),
{
    let b = components(style, base);
    let p = components(style, path);
    components_prefix(&b, &p)
}

} // verus!
