//! The URL path converter: parses a documentation-site URL for a given
//! package into an intra-doc link target such as `crate::module::Item`.

use vstd::prelude::*;
use vstd::string::{StrSliceExecFns, StringExecFns};
use crate::errors::{Error, SpecError};
use crate::text::{
    find_char, find_from, has_prefix, has_suffix, lemma_find_from, lemma_find_from_is, opt_view,
    starts_with, ends_with, str_eq,
};

verus! {

/// The pieces of `s` between occurrences of `c`, in order; an empty `s` gives
/// one empty piece, and a separator at the end gives a trailing empty piece.
pub open spec fn spec_split(s: Seq<char>, c: char) -> Seq<Seq<char>>
    decreases s.len(),
{
    let i = find_from(s, c, 0);
    if 0 <= i < s.len() {
        seq![s.take(i)] + spec_split(s.skip(i + 1), c)
    } else {
        seq![s]
    }
}

/// Drops the single trailing empty segment that a trailing separator leaves.
pub open spec fn spec_trim_path(segs: Seq<Seq<char>>) -> Seq<Seq<char>> {
    if segs.len() > 0 && segs.last() == Seq::<char>::empty() {
        segs.drop_last()
    } else {
        segs
    }
}

/// The module-path part of a link: one `::` before each segment, so that it
/// can stand directly after the root marker `crate`.
pub open spec fn spec_join_mods(segs: Seq<Seq<char>>) -> Seq<char>
    decreases segs.len(),
{
    if segs.len() == 0 {
        Seq::empty()
    } else {
        "::"@ + segs[0] + spec_join_mods(segs.skip(1))
    }
}

pub proof fn lemma_join_mods_snoc(segs: Seq<Seq<char>>, x: Seq<char>)
    ensures
        spec_join_mods(segs.push(x)) == spec_join_mods(segs) + "::"@ + x,
    decreases segs.len(),
{
    if segs.len() == 0 {
        assert(segs.push(x) =~= seq![x]);
        assert(seq![x][0] == x);
        assert(seq![x].skip(1) =~= Seq::<Seq<char>>::empty());
        assert(spec_join_mods(Seq::<Seq<char>>::empty()) == Seq::<char>::empty());
        assert(spec_join_mods(seq![x]) == "::"@ + x + spec_join_mods(seq![x].skip(1)));
        assert(spec_join_mods(segs) == Seq::<char>::empty());
        assert("::"@ + x + Seq::<char>::empty() =~= Seq::<char>::empty() + "::"@ + x);
    } else {
        assert(segs.push(x).skip(1) =~= segs.skip(1).push(x));
        assert(segs.push(x)[0] == segs[0]);
        assert(spec_join_mods(segs.push(x)) == "::"@ + segs[0] + spec_join_mods(
            segs.skip(1).push(x),
        ));
        lemma_join_mods_snoc(segs.skip(1), x);
        assert(("::"@ + segs[0] + spec_join_mods(segs.skip(1))) + "::"@ + x =~= "::"@ + segs[0]
            + (spec_join_mods(segs.skip(1)) + "::"@ + x));
    }
}

/// The package-root link: the literal `crate`, with the fragment appended
/// after `#` when one is present.
pub open spec fn spec_root_link(fragment: Option<Seq<char>>) -> Seq<char> {
    match fragment {
        None => "crate"@,
        Some(f) => "crate"@ + "#"@ + f,
    }
}

/// A link to a module page: `crate`, the module path, and the fragment when
/// one is present.
pub open spec fn spec_index_link(mods: Seq<char>, fragment: Option<Seq<char>>) -> Seq<char> {
    match fragment {
        None => "crate"@ + mods,
        Some(f) => "crate"@ + mods + "#"@ + f,
    }
}

/// A link to an item page. A fragment that starts with one of the kind's
/// special prefixes names a member: it is promoted into the path with the
/// prefix stripped. Any other fragment passes through after `#`.
pub open spec fn spec_item_link(
    mods: Seq<char>,
    name: Seq<char>,
    specials: Seq<Seq<char>>,
    fragment: Option<Seq<char>>,
) -> Seq<char> {
    match fragment {
        None => "crate"@ + mods + "::"@ + name,
        Some(f) => if specials.len() >= 1 && has_prefix(f, specials[0]) {
            "crate"@ + mods + "::"@ + name + "::"@ + f.skip(specials[0].len() as int)
        } else if specials.len() >= 2 && has_prefix(f, specials[1]) {
            "crate"@ + mods + "::"@ + name + "::"@ + f.skip(specials[1].len() as int)
        } else {
            "crate"@ + mods + "::"@ + name + "#"@ + f
        },
    }
}

/// The link for a `kind.Name.html` filename whose kind prefix has length
/// `klen`: the `Name` between the kind prefix and the `.html` suffix, unless
/// the filename is too short to hold both.
pub open spec fn spec_kind_link(
    url: Seq<char>,
    filename: Seq<char>,
    klen: int,
    specials: Seq<Seq<char>>,
    mods: Seq<char>,
    fragment: Option<Seq<char>>,
) -> Result<Seq<char>, SpecError> {
    if filename.len() < klen + 5 {
        Err(SpecError::UnrecognizedUrl(url))
    } else {
        Ok(spec_item_link(mods, filename.subrange(klen, filename.len() - 5), specials, fragment))
    }
}

/// Dispatch over the filename of an item page. The kind decides which
/// fragment prefixes name a member: `enum` has `method.` and `variant.`,
/// `fn` has none, `struct` has `method.`, `trait` has `tymethod.`.
pub open spec fn spec_filename_link(
    url: Seq<char>,
    filename: Seq<char>,
    mods: Seq<char>,
    fragment: Option<Seq<char>>,
) -> Result<Seq<char>, SpecError> {
    if !has_suffix(filename, ".html"@) {
        Err(SpecError::UnrecognizedUrl(url))
    } else if has_prefix(filename, "enum."@) {
        spec_kind_link(url, filename, 5, seq!["method."@, "variant."@], mods, fragment)
    } else if has_prefix(filename, "fn."@) {
        spec_kind_link(url, filename, 3, Seq::empty(), mods, fragment)
    } else if has_prefix(filename, "struct."@) {
        spec_kind_link(url, filename, 7, seq!["method."@], mods, fragment)
    } else if has_prefix(filename, "trait."@) {
        spec_kind_link(url, filename, 6, seq!["tymethod."@], mods, fragment)
    } else {
        Err(SpecError::UnrecognizedUrl(url))
    }
}

/// The link for a split documentation path. `path` holds the segments after
/// the package name: version, crate name, module names, and a filename.
pub open spec fn spec_path_link(
    url: Seq<char>,
    path: Seq<Seq<char>>,
    fragment: Option<Seq<char>>,
    ver: Option<Seq<char>>,
    krate: Option<Seq<char>>,
) -> Result<Seq<char>, SpecError> {
    if path.len() == 0 {
        if ver is Some {
            Err(SpecError::MissingVersionInUrl(url))
        } else {
            Ok(spec_root_link(fragment))
        }
    } else if ver matches Some(v) && path[0] != v {
        Err(SpecError::WrongVersionInUrl(url))
    } else if path.len() == 2 && path[1] == "index.html"@ {
        Ok(spec_root_link(fragment))
    } else if path.len() == 1 {
        Ok(spec_root_link(fragment))
    } else if krate matches Some(k) && path[1] != k {
        Err(SpecError::WrongCrateNameInUrl(url))
    } else if path.len() == 3 && path[2] == "index.html"@ {
        Ok(spec_root_link(fragment))
    } else if path.len() == 2 {
        Ok(spec_root_link(fragment))
    } else if find_from(path.last(), '.', 0) < path.last().len() {
        // the last segment holds a `.`: it is the filename
        let mods = spec_join_mods(path.subrange(2, path.len() - 1));
        if path.last() == "index.html"@ {
            Ok(spec_index_link(mods, fragment))
        } else {
            spec_filename_link(url, path.last(), mods, fragment)
        }
    } else {
        // no filename: every remaining segment is a module name
        Ok(spec_index_link(spec_join_mods(path.skip(2)), fragment))
    }
}

/// The prefix that a documentation URL for `pkg` must carry.
pub open spec fn spec_url_prefix(pkg: Seq<char>) -> Seq<char> {
    "https://docs.rs/"@ + pkg
}

/// What the URL converter returns for `url`. A URL that does not point at the
/// package's documentation site comes back unchanged; one that does is parsed
/// into fragment and path segments and converted, or rejected with an error.
pub open spec fn spec_convert_url(
    url: Seq<char>,
    pkg: Seq<char>,
    ver: Option<Seq<char>>,
    krate: Option<Seq<char>>,
) -> Result<Seq<char>, SpecError> {
    let prefix = spec_url_prefix(pkg);
    if !has_prefix(url, prefix) {
        Ok(url)
    } else {
        let pl = prefix.len() as int;
        let path_start: int = if url.len() == pl {
            pl
        } else if url[pl] == '/' {
            pl + 1
        } else if url[pl] == '#' {
            pl
        } else {
            -1
        };
        if path_start == -1 {
            Ok(url)
        } else {
            let frag_pos = find_from(url, '#', path_start);
            let fragment = if frag_pos < url.len() {
                Some(url.skip(frag_pos + 1))
            } else {
                None
            };
            let path = spec_trim_path(spec_split(url.subrange(path_start, frag_pos), '/'));
            spec_path_link(url, path, fragment, ver, krate)
        }
    }
}

pub proof fn lemma_find_from_shift(s: Seq<char>, c: char, k: int)
    requires
        0 <= k <= s.len(),
    ensures
        find_from(s.skip(k), c, 0) == find_from(s, c, k) - k,
{
    let i = find_from(s, c, k);
    lemma_find_from(s, c, k);
    let t = s.skip(k);
    assert forall|j: int| 0 <= j < i - k implies t[j] != c by {
        assert(t[j] == s[k + j]);
    }
    if i < s.len() {
        assert(t[i - k] == s[i]);
    }
    lemma_find_from_is(t, c, 0, i - k);
}

/// The pieces of `s` between `/` separators, left to right.
pub fn split_slash<'a>(s: &'a str) -> (v: Vec<&'a str>)
    ensures
        v@.len() == spec_split(s@, '/').len(),
        forall|i: int| 0 <= i < v@.len() ==> #[trigger] v@[i]@ == spec_split(s@, '/')[i],
{
    let n = s.unicode_len();
    let mut v: Vec<&str> = Vec::new();
    let ghost mut done: Seq<Seq<char>> = Seq::empty();
    let mut pos: usize = 0;
    let mut i = find_char(s, '/', pos);
    proof {
        lemma_find_from(s@, '/', 0);
        assert(s@.skip(0) =~= s@);
        assert(Seq::<Seq<char>>::empty() + spec_split(s@, '/') =~= spec_split(s@, '/'));
    }
    while i < n
        invariant
            pos <= n,
            n == s@.len(),
            i as int == find_from(s@, '/', pos as int),
            pos as int <= i as int <= n as int,
            done.len() == v@.len(),
            forall|j: int| 0 <= j < v@.len() ==> #[trigger] v@[j]@ == done[j],
            spec_split(s@, '/') == done + spec_split(s@.skip(pos as int), '/'),
        decreases n - pos,
    {
        let piece = s.substring_char(pos, i);
        v.push(piece);
        proof {
            let t = s@.skip(pos as int);
            lemma_find_from_shift(s@, '/', pos as int);
            assert(find_from(t, '/', 0) == i - pos);
            assert(spec_split(t, '/') == seq![t.take(i - pos)] + spec_split(
                t.skip(i - pos + 1),
                '/',
            ));
            assert(t.take(i - pos) =~= piece@);
            assert(t.skip(i - pos + 1) =~= s@.skip(i + 1));
            done = done.push(piece@);
            assert(done + spec_split(s@.skip(i + 1), '/') =~= (done.drop_last() + (seq![piece@]
                + spec_split(s@.skip(i + 1), '/'))));
        }
        pos = i + 1;
        i = find_char(s, '/', pos);
        proof {
            lemma_find_from(s@, '/', pos as int);
        }
    }
    let piece = s.substring_char(pos, n);
    v.push(piece);
    proof {
        let t = s@.skip(pos as int);
        lemma_find_from_shift(s@, '/', pos as int);
        assert(find_from(t, '/', 0) == t.len());
        assert(spec_split(t, '/') == seq![t]);
        assert(t =~= piece@);
        done = done.push(piece@);
        assert(spec_split(s@, '/') =~= done);
    }
    v
}

/// Builds the package-root link.
pub fn root_link(fragment: Option<&str>) -> (r: String)
    ensures
        r@ == spec_root_link(opt_view(fragment)),
{
    let mut r = String::new();
    r.append("crate");
    proof {
        assert(Seq::<char>::empty() + "crate"@ =~= "crate"@);
    }
    if let Some(f) = fragment {
        r.append("#");
        r.append(f);
        proof {
            assert("crate"@ + "#"@ + f@ =~= ("crate"@ + "#"@) + f@);
        }
    }
    r
}

/// The specials list that a pair of optional prefixes stands for.
pub open spec fn opt_seq2(a: Option<Seq<char>>, b: Option<Seq<char>>) -> Seq<Seq<char>> {
    match a {
        None => Seq::empty(),
        Some(x) => match b {
            None => seq![x],
            Some(y) => seq![x, y],
        },
    }
}

/// Builds a link to an item page, promoting a member fragment into the path
/// when it starts with one of the kind's special prefixes.
fn item_link(
    mods: &str,
    name: &str,
    special0: Option<&str>,
    special1: Option<&str>,
    fragment: Option<&str>,
) -> (r: String)
    ensures
        r@ == spec_item_link(
            mods@,
            name@,
            opt_seq2(opt_view(special0), opt_view(special1)),
            opt_view(fragment),
        ),
{
    let mut r = String::new();
    r.append("crate");
    r.append(mods);
    r.append("::");
    r.append(name);
    proof {
        assert(Seq::<char>::empty() + "crate"@ =~= "crate"@);
    }
    let base_view: Ghost<Seq<char>> = Ghost("crate"@ + mods@ + "::"@ + name@);
    proof {
        assert(r@ =~= base_view@);
    }
    if let Some(f) = fragment {
        let flen = f.unicode_len();
        if let Some(sp) = special0 {
            if starts_with(f, sp) {
                r.append("::");
                r.append(f.substring_char(sp.unicode_len(), flen));
                proof {
                    assert(f@.subrange(sp@.len() as int, f@.len() as int) =~= f@.skip(
                        sp@.len() as int,
                    ));
                    assert(base_view@ + "::"@ + f@.skip(sp@.len() as int) =~= (base_view@ + "::"@)
                        + f@.skip(sp@.len() as int));
                }
                return r;
            }
            if let Some(sp) = special1 {
                if starts_with(f, sp) {
                    r.append("::");
                    r.append(f.substring_char(sp.unicode_len(), flen));
                    proof {
                        assert(f@.subrange(sp@.len() as int, f@.len() as int) =~= f@.skip(
                            sp@.len() as int,
                        ));
                        assert(base_view@ + "::"@ + f@.skip(sp@.len() as int) =~= (base_view@
                            + "::"@) + f@.skip(sp@.len() as int));
                    }
                    return r;
                }
            }
        }
        r.append("#");
        r.append(f);
        proof {
            assert(base_view@ + "#"@ + f@ =~= (base_view@ + "#"@) + f@);
        }
        return r;
    }
    r
}

/// Builds the link for a recognized `kind.Name.html` filename, or rejects a
/// filename too short to hold a name.
fn kind_result(
    url: &str,
    filename: &str,
    kind_len: usize,
    special0: Option<&str>,
    special1: Option<&str>,
    mods: &str,
    fragment: Option<&str>,
) -> (r: Result<String, Error>)
    requires
        kind_len <= 16,
    ensures
        match r {
            Ok(link) => spec_kind_link(
                url@,
                filename@,
                kind_len as int,
                opt_seq2(opt_view(special0), opt_view(special1)),
                mods@,
                opt_view(fragment),
            ) == Ok::<Seq<char>, SpecError>(link@),
            Err(e) => spec_kind_link(
                url@,
                filename@,
                kind_len as int,
                opt_seq2(opt_view(special0), opt_view(special1)),
                mods@,
                opt_view(fragment),
            ) == Err::<Seq<char>, SpecError>(e@),
        },
{
    let flen = filename.unicode_len();
    if flen < kind_len + 5 {
        return Err(Error::UnrecognizedUrl(url.to_owned()));
    }
    let name = filename.substring_char(kind_len, flen - 5);
    Ok(item_link(mods, name, special0, special1, fragment))
}

/// Converts one URL.
///
/// A URL that does not start with `https://docs.rs/<package_name>`, or whose
/// next character shows a longer package name, comes back unchanged. One that
/// does point at the package's documentation is parsed and rewritten to an
/// intra-doc link, or rejected with the error that names what was wrong.
pub fn convert_url(
    url: &str,
    package_name: &str,
    version: Option<&str>,
    crate_name: Option<&str>,
) -> (r: Result<String, Error>)
    ensures
        match r {
            Ok(link) => spec_convert_url(
                url@,
                package_name@,
                opt_view(version),
                opt_view(crate_name),
            ) == Ok::<Seq<char>, SpecError>(link@),
            Err(e) => spec_convert_url(
                url@,
                package_name@,
                opt_view(version),
                opt_view(crate_name),
            ) == Err::<Seq<char>, SpecError>(e@),
        },
{
    let mut prefix = String::new();
    prefix.append("https://docs.rs/");
    prefix.append(package_name);
    proof {
        assert(prefix@ =~= spec_url_prefix(package_name@));
    }
    if !starts_with(url, prefix.as_str()) {
        return Ok(url.to_owned());
    }
    let n = url.unicode_len();
    let pl = prefix.as_str().unicode_len();
    let path_start: usize;
    if n == pl {
        path_start = pl;
    } else {
        let c = url.get_char(pl);
        if c == '/' {
            path_start = pl + 1;
        } else if c == '#' {
            path_start = pl;
        } else {
            return Ok(url.to_owned());
        }
    }
    let frag_pos = find_char(url, '#', path_start);
    proof {
        lemma_find_from(url@, '#', path_start as int);
    }
    let fragment: Option<&str> = if frag_pos < n {
        Some(url.substring_char(frag_pos + 1, n))
    } else {
        None
    };
    let raw = url.substring_char(path_start, frag_pos);
    let mut path = split_slash(raw);
    if path.len() > 0 && path[path.len() - 1].is_empty() {
        proof {
            let segs = spec_split(raw@, '/');
            assert(segs.last() =~= Seq::<char>::empty());
        }
        let _ = path.pop();
    }
    let ghost pv = spec_trim_path(spec_split(raw@, '/'));
    proof {
        assert(path@.len() == pv.len());
        assert(forall|j: int| 0 <= j < path@.len() ==> #[trigger] path@[j]@ == pv[j]);
        assert(opt_view(fragment) == if frag_pos < n {
            Some(url@.skip(frag_pos + 1))
        } else {
            None::<Seq<char>>
        });
    }
    if path.len() == 0 {
        if version.is_some() {
            return Err(Error::MissingVersionInUrl(url.to_owned()));
        }
        return Ok(root_link(fragment));
    }
    let url_version = path[0];
    if let Some(required) = version {
        if !str_eq(url_version, required) {
            return Err(Error::WrongVersionInUrl(url.to_owned()));
        }
    }
    if path.len() == 2 && str_eq(path[1], "index.html") {
        return Ok(root_link(fragment));
    }
    if path.len() == 1 {
        return Ok(root_link(fragment));
    }
    let url_crate = path[1];
    if let Some(required) = crate_name {
        if !str_eq(url_crate, required) {
            return Err(Error::WrongCrateNameInUrl(url.to_owned()));
        }
    }
    if path.len() == 3 && str_eq(path[2], "index.html") {
        return Ok(root_link(fragment));
    }
    if path.len() == 2 {
        return Ok(root_link(fragment));
    }
    let last = path[path.len() - 1];
    let llen = last.unicode_len();
    let has_dot = find_char(last, '.', 0) < llen;
    let mod_end: usize = if has_dot {
        path.len() - 1
    } else {
        path.len()
    };
    let filename: &str = if has_dot {
        last
    } else {
        "index.html"
    };
    let ghost mod_views = if has_dot {
        pv.subrange(2, pv.len() - 1)
    } else {
        pv.skip(2)
    };
    let mut mods = String::new();
    let mut k: usize = 2;
    proof {
        assert(mod_views =~= pv.subrange(2, mod_end as int));
        assert(pv.subrange(2, 2) =~= Seq::<Seq<char>>::empty());
    }
    while k < mod_end
        invariant
            2 <= k <= mod_end,
            mod_end as int <= path@.len(),
            path@.len() == pv.len(),
            forall|j: int| 0 <= j < path@.len() ==> #[trigger] path@[j]@ == pv[j],
            mods@ == spec_join_mods(pv.subrange(2, k as int)),
        decreases mod_end - k,
    {
        mods.append("::");
        mods.append(path[k]);
        proof {
            lemma_join_mods_snoc(pv.subrange(2, k as int), pv[k as int]);
            assert(pv.subrange(2, k + 1) =~= pv.subrange(2, k as int).push(pv[k as int]));
            assert(spec_join_mods(pv.subrange(2, k as int)) + "::"@ + pv[k as int]
                =~= (spec_join_mods(pv.subrange(2, k as int)) + "::"@) + pv[k as int]);
        }
        k = k + 1;
    }
    proof {
        assert(mods@ == spec_join_mods(mod_views));
    }
    if str_eq(filename, "index.html") {
        let mut out = String::new();
        out.append("crate");
        out.append(mods.as_str());
        proof {
            assert(Seq::<char>::empty() + "crate"@ =~= "crate"@);
        }
        if let Some(f) = fragment {
            out.append("#");
            out.append(f);
            proof {
                assert("crate"@ + mods@ + "#"@ + f@ =~= (("crate"@ + mods@) + "#"@) + f@);
            }
        }
        return Ok(out);
    }
    if !ends_with(filename, ".html") {
        return Err(Error::UnrecognizedUrl(url.to_owned()));
    }
    if starts_with(filename, "enum.") {
        return kind_result(url, filename, 5, Some("method."), Some("variant."), mods.as_str(), fragment);
    }
    if starts_with(filename, "fn.") {
        return kind_result(url, filename, 3, None, None, mods.as_str(), fragment);
    }
    if starts_with(filename, "struct.") {
        return kind_result(url, filename, 7, Some("method."), None, mods.as_str(), fragment);
    }
    if starts_with(filename, "trait.") {
        return kind_result(url, filename, 6, Some("tymethod."), None, mods.as_str(), fragment);
    }
    Err(Error::UnrecognizedUrl(url.to_owned()))
}

} // verus!
