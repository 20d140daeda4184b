//! The font catalog: fonts found in directory listings, searched and sorted.

use vstd::prelude::*;

use crate::text::{
    contains_text, ends_with_text, has_suffix, is_substring, lemma_text_le_reflexive,
    lemma_text_le_total, lemma_text_le_transitive, text_le, text_le_exec,
};

verus! {

/// A font the renderer can use: its name (the file name without extension)
/// and the directory that holds it.
#[derive(Debug, Clone)]
pub struct Font {
    pub name: String,
    pub dir: String,
}

/// A font as plain values.
pub ghost struct FontView {
    pub name: Seq<char>,
    pub dir: Seq<char>,
}

impl View for Font {
    type V = FontView;

    open spec fn view(&self) -> FontView {
        FontView { name: self.name@, dir: self.dir@ }
    }
}

impl Font {
    /// A font of the given name in the given directory.
    pub fn new(name: &str, dir: &str) -> (r: Font)
        ensures
            r@ == (FontView { name: name@, dir: dir@ }),
    {
        Font { name: String::from_str(name), dir: String::from_str(dir) }
    }

    /// A copy of this font.
    pub fn duplicate(&self) -> (r: Font)
        ensures
            r == *self,
    {
        Font { name: self.name.clone(), dir: self.dir.clone() }
    }
}

/// What follows the last `/` of `s`, or `s` itself where it holds no `/`:
/// for a path, the name of the file without its directories.
pub open spec fn base_name(s: Seq<char>) -> Seq<char>
    decreases s.len(),
{
    if s.len() == 0 {
        s
    } else if s.last() == '/' {
        Seq::empty()
    } else {
        base_name(s.drop_last()).push(s.last())
    }
}

/// Relies on `regex::Regex::new("(?s).*/")` and `Regex::replace` with an
/// empty replacement: the leftmost-first match, which runs from the start of
/// the text through its last `/` (the `s` flag lets `.` match a newline too),
/// is removed once; a text without `/` has no match and is kept.
#[verifier::external_body]
fn strip_dir_prefix(path: &str) -> (r: String)
    ensures
        r@ == base_name(path@),
{
    let dir_re = regex::Regex::new(r"(?s).*/").unwrap();
    dir_re.replace(path, "").into_owned()
}

/// `.tlf`.
pub open spec fn tlf_ext() -> Seq<char> {
    seq!['.', 't', 'l', 'f']
}

/// `.flf`.
pub open spec fn flf_ext() -> Seq<char> {
    seq!['.', 'f', 'l', 'f']
}

/// A path of a font file: one that ends in `.tlf` or `.flf`.
pub open spec fn is_font_file(path: Seq<char>) -> bool {
    has_suffix(path, tlf_ext()) || has_suffix(path, flf_ext())
}

/// The name of the font in the file at `path`: its base name without the
/// four-character extension.
pub open spec fn font_name_of(path: Seq<char>) -> Seq<char> {
    let b = base_name(path);
    b.subrange(0, b.len() - 4)
}

/// The fonts that a directory listing of `dir` holds, in listing order.
pub open spec fn listed_fonts(dir: Seq<char>, paths: Seq<String>) -> Seq<FontView>
    decreases paths.len(),
{
    if paths.len() == 0 {
        Seq::empty()
    } else {
        let rest = listed_fonts(dir, paths.drop_last());
        let p = paths.last()@;
        if is_font_file(p) {
            rest.push(FontView { name: font_name_of(p), dir })
        } else {
            rest
        }
    }
}

/// The views of a sequence of fonts.
pub open spec fn views(fonts: Seq<Font>) -> Seq<FontView> {
    fonts.map_values(|f: Font| f@)
}

/// A file name holds no `/`.
pub proof fn lemma_base_name_has_no_slash(s: Seq<char>)
    ensures
        forall|k: int| 0 <= k < base_name(s).len() ==> base_name(s)[k] != '/',
    decreases s.len(),
{
    if s.len() > 0 && s.last() != '/' {
        let b1 = base_name(s.drop_last());
        lemma_base_name_has_no_slash(s.drop_last());
        assert(base_name(s) == b1.push(s.last()));
        assert forall|k: int| 0 <= k < base_name(s).len() implies base_name(s)[k] != '/' by {
            if k < b1.len() {
                assert(base_name(s)[k] == b1[k]);
            }
        }
    }
}

proof fn lemma_suffix_kept(s: Seq<char>, u: Seq<char>)
    requires
        has_suffix(s, u),
        forall|k: int| 0 <= k < u.len() ==> u[k] != '/',
    ensures
        has_suffix(base_name(s), u),
    decreases u.len(),
{
    let b = base_name(s);
    if u.len() == 0 {
        assert(b.subrange(b.len() as int, b.len() as int) =~= u);
    } else {
        let s1 = s.drop_last();
        let u1 = u.drop_last();
        assert(s.subrange(s.len() - u.len(), s.len() as int)[u.len() - 1] == s.last());
        assert(s.last() == u[u.len() - 1]);
        assert(s1.subrange(s1.len() - u1.len(), s1.len() as int) =~= u1);
        lemma_suffix_kept(s1, u1);
        let b1 = base_name(s1);
        assert(b == b1.push(s.last()));
        assert(b.subrange(b.len() - u.len(), b.len() as int) =~= b1.subrange(
            b1.len() - u1.len(),
            b1.len() as int,
        ).push(s.last()));
        assert(u =~= u1.push(u.last()));
    }
}

/// Each font of a listing lies in the listed directory, its name holds no
/// `/`, and the listing has a font file named after it; a listing gives no
/// more fonts than it has entries.
pub proof fn lemma_listed_fonts(dir: Seq<char>, paths: Seq<String>)
    ensures
        listed_fonts(dir, paths).len() <= paths.len(),
        forall|i: int|
            0 <= i < listed_fonts(dir, paths).len() ==> {
                let f = #[trigger] listed_fonts(dir, paths)[i];
                &&& f.dir == dir
                &&& forall|k: int| 0 <= k < f.name.len() ==> f.name[k] != '/'
                &&& exists|j: int|
                    0 <= j < paths.len() && (base_name(#[trigger] paths[j]@) == f.name + tlf_ext()
                        || base_name(paths[j]@) == f.name + flf_ext())
            },
    decreases paths.len(),
{
    if paths.len() > 0 {
        let front = paths.drop_last();
        lemma_listed_fonts(dir, front);
        let p = paths.last()@;
        let n = paths.len() - 1;
        assert(paths[n]@ == p);
        assert forall|j: int| 0 <= j < front.len() implies #[trigger] front[j] == paths[j] by {}
        if is_font_file(p) {
            let b = base_name(p);
            let name = font_name_of(p);
            lemma_base_name_has_no_slash(p);
            if has_suffix(p, tlf_ext()) {
                lemma_suffix_kept(p, tlf_ext());
                assert(b =~= name + tlf_ext());
            } else {
                lemma_suffix_kept(p, flf_ext());
                assert(b =~= name + flf_ext());
            }
        }
    }
}

/// The fonts among the entries of a listing of `dir`: each path that ends in
/// `.tlf` or `.flf` gives a font named after the file, in `dir`.
pub fn fonts_in_listing(dir: &str, paths: &Vec<String>) -> (r: Vec<Font>)
    ensures
        views(r@) == listed_fonts(dir@, paths@),
{
    let mut fonts: Vec<Font> = Vec::new();
    let mut i: usize = 0;
    assert(paths@.subrange(0, 0) =~= Seq::<String>::empty());
    while i < paths.len()
        invariant
            i <= paths@.len(),
            views(fonts@) == listed_fonts(dir@, paths@.subrange(0, i as int)),
        decreases paths@.len() - i,
    {
        let path = paths[i].as_str();
        proof {
            reveal_strlit(".tlf");
            reveal_strlit(".flf");
        }
        assert(".tlf"@ =~= tlf_ext());
        assert(".flf"@ =~= flf_ext());
        let tlf = ends_with_text(path, ".tlf");
        let flf = ends_with_text(path, ".flf");
        assert(paths@.subrange(0, i + 1).drop_last() =~= paths@.subrange(0, i as int));
        if tlf || flf {
            let relative = strip_dir_prefix(path);
            proof {
                if tlf {
                    lemma_suffix_kept(path@, tlf_ext());
                } else {
                    lemma_suffix_kept(path@, flf_ext());
                }
            }
            let len = relative.as_str().unicode_len();
            let name = relative.as_str().substring_char(0, len - 4);
            let font = Font::new(name, dir);
            fonts.push(font);
            assert(views(fonts@) =~= listed_fonts(dir@, paths@.subrange(0, i + 1)));
        }
        i += 1;
    }
    assert(paths@.subrange(0, i as int) =~= paths@);
    fonts
}

/// The fonts of a directory, given the outcome of listing it: the full paths
/// of its entries, or `None` where it could not be read (then there are no
/// fonts from it).
pub fn get_fonts_from_dir(dir: &str, listing: Option<Vec<String>>) -> (r: Vec<Font>)
    ensures
        views(r@) == match listing {
            Some(paths) => listed_fonts(dir@, paths@),
            None => Seq::empty(),
        },
{
    match listing {
        Some(paths) => fonts_in_listing(dir, &paths),
        None => {
            let empty_fonts: Vec<Font> = Vec::new();
            assert(views(empty_fonts@) =~= Seq::empty());
            empty_fonts
        },
    }
}

/// The fonts of a listing of `dir`, or none where it could not be read.
pub open spec fn fonts_of_listing(dir: Seq<char>, listing: Option<Vec<String>>) -> Seq<FontView> {
    match listing {
        Some(paths) => listed_fonts(dir, paths@),
        None => Seq::empty(),
    }
}

/// The listing at place `i`, or `None` (not readable) where there is none.
pub open spec fn listing_at(listings: Seq<Option<Vec<String>>>, i: int) -> Option<Vec<String>> {
    if 0 <= i < listings.len() {
        listings[i]
    } else {
        None
    }
}

/// The fonts of the renderer's own directory (listing `0`), followed by those
/// of the first `n` extra directories (listing `k + 1` for `dirs[k]`), in order.
pub open spec fn gathered_fonts(
    default_dir: Seq<char>,
    dirs: Seq<String>,
    listings: Seq<Option<Vec<String>>>,
    n: nat,
) -> Seq<FontView>
    decreases n,
{
    if n == 0 {
        fonts_of_listing(default_dir, listing_at(listings, 0))
    } else {
        gathered_fonts(default_dir, dirs, listings, (n - 1) as nat) + fonts_of_listing(
            dirs[n - 1]@,
            listing_at(listings, n as int),
        )
    }
}

fn fonts_of(dir: &str, listing: &Option<Vec<String>>) -> (r: Vec<Font>)
    ensures
        views(r@) == fonts_of_listing(dir@, *listing),
{
    match listing {
        Some(paths) => fonts_in_listing(dir, paths),
        None => {
            let empty_fonts: Vec<Font> = Vec::new();
            assert(views(empty_fonts@) =~= Seq::empty());
            empty_fonts
        },
    }
}

/// All fonts found at startup: those of the renderer's own directory
/// `default_dir`, then those of each extra directory in the order given.
/// `listings[0]` is the listing of `default_dir` and `listings[k + 1]` that
/// of `dirs[k]`; a listing that is missing or `None` gives no fonts.
pub fn gather_fonts(
    default_dir: &str,
    dirs: &Vec<String>,
    listings: &Vec<Option<Vec<String>>>,
) -> (r: Vec<Font>)
    ensures
        views(r@) == gathered_fonts(default_dir@, dirs@, listings@, dirs@.len()),
{
    let mut found = if listings.len() > 0 {
        fonts_of(default_dir, &listings[0])
    } else {
        fonts_of(default_dir, &None)
    };
    let mut k: usize = 0;
    while k < dirs.len()
        invariant
            k <= dirs@.len(),
            views(found@) == gathered_fonts(default_dir@, dirs@, listings@, k as nat),
        decreases dirs@.len() - k,
    {
        let dir = dirs[k].as_str();
        let mut more = if k + 1 < listings.len() {
            fonts_of(dir, &listings[k + 1])
        } else {
            fonts_of(dir, &None)
        };
        let ghost before = found@;
        found.append(&mut more);
        assert(views(found@) =~= views(before) + fonts_of_listing(
            dirs@[k as int]@,
            listing_at(listings@, k + 1),
        ));
        k += 1;
    }
    found
}

/// The lower-case form of a text, as `str::to_lowercase` gives it.
pub uninterp spec fn lower_of(s: Seq<char>) -> Seq<char>;

/// Relies on `str::to_lowercase`: the result depends on the characters
/// alone, and an empty text stays empty.
#[verifier::external_body]
fn lowercase(s: &str) -> (r: String)
    ensures
        r@ == lower_of(s@),
        s@.len() == 0 ==> r@.len() == 0,
{
    s.to_lowercase()
}

/// A font matches a query when the query, in lower case, occurs in the
/// font's name, in lower case.
pub open spec fn font_matches(f: FontView, query: Seq<char>) -> bool {
    is_substring(lower_of(query), lower_of(f.name))
}

/// The fonts of `fonts` that match `query`, in their order.
pub open spec fn search_results(fonts: Seq<FontView>, query: Seq<char>) -> Seq<FontView>
    decreases fonts.len(),
{
    if fonts.len() == 0 {
        Seq::empty()
    } else {
        let rest = search_results(fonts.drop_last(), query);
        if font_matches(fonts.last(), query) {
            rest.push(fonts.last())
        } else {
            rest
        }
    }
}

proof fn lemma_search_keeps_all(fonts: Seq<FontView>, query: Seq<char>)
    requires
        lower_of(query).len() == 0,
    ensures
        search_results(fonts, query) == fonts,
    decreases fonts.len(),
{
    if fonts.len() > 0 {
        lemma_search_keeps_all(fonts.drop_last(), query);
        let name = lower_of(fonts.last().name);
        assert(name.subrange(0, 0 + lower_of(query).len() as int) =~= lower_of(query));
        assert(fonts.drop_last().push(fonts.last()) =~= fonts);
    }
}

/// The fonts whose names hold `query`, regardless of case, in catalog order;
/// an empty query keeps every font.
pub fn search(fonts: &Vec<Font>, query: &str) -> (r: Vec<Font>)
    ensures
        views(r@) == search_results(views(fonts@), query@),
        query@.len() == 0 ==> views(r@) == views(fonts@),
{
    let lowercase_query = lowercase(query);
    proof {
        if query@.len() == 0 {
            lemma_search_keeps_all(views(fonts@), query@);
        }
    }
    let mut results: Vec<Font> = Vec::new();
    let mut i: usize = 0;
    assert(views(fonts@).subrange(0, 0) =~= Seq::<FontView>::empty());
    while i < fonts.len()
        invariant
            i <= fonts@.len(),
            lowercase_query@ == lower_of(query@),
            views(results@) == search_results(views(fonts@).subrange(0, i as int), query@),
        decreases fonts@.len() - i,
    {
        let f = &fonts[i];
        let lowercase_name = lowercase(f.name.as_str());
        assert(views(fonts@).subrange(0, i + 1).drop_last() =~= views(fonts@).subrange(
            0,
            i as int,
        ));
        if contains_text(lowercase_name.as_str(), lowercase_query.as_str()) {
            results.push(f.duplicate());
        }
        assert(views(results@) =~= search_results(views(fonts@).subrange(0, i + 1), query@));
        i += 1;
    }
    assert(views(fonts@).subrange(0, i as int) =~= views(fonts@));
    results
}

/// The key the catalog is sorted by: the font's name in lower case.
pub open spec fn sort_key(f: Font) -> Seq<char> {
    lower_of(f.name@)
}

/// The fonts are in order of their lower-case names.
pub open spec fn sorted_by_name(fonts: Seq<Font>) -> bool {
    forall|i: int, j: int|
        0 <= i < j < fonts.len() ==> text_le(sort_key(#[trigger] fonts[i]), sort_key(
            #[trigger] fonts[j],
        ))
}

/// Whether a font's lower-case name is `k`.
pub open spec fn key_is(k: Seq<char>) -> spec_fn(Font) -> bool {
    |f: Font| sort_key(f) == k
}

/// The fonts whose lower-case name is `k`, in their order in `fonts`.
pub open spec fn with_key(fonts: Seq<Font>, k: Seq<char>) -> Seq<Font> {
    fonts.filter(key_is(k))
}

proof fn lemma_insert_keeps_key_order(
    before: Seq<Font>,
    inputs: Seq<Font>,
    x: Font,
    p: int,
)
    requires
        0 <= p <= before.len(),
        forall|k: Seq<char>| #[trigger] with_key(before, k) == with_key(inputs, k),
        forall|q: int| p <= q < before.len() ==> sort_key(#[trigger] before[q]) != sort_key(x),
    ensures
        forall|k: Seq<char>| #[trigger] with_key(before.insert(p, x), k) == with_key(
            inputs.push(x),
            k,
        ),
{
    assert forall|k: Seq<char>| #[trigger] with_key(before.insert(p, x), k) == with_key(
        inputs.push(x),
        k,
    ) by {
        let pred = key_is(k);
        assert(with_key(before, k) == with_key(inputs, k));
        let front = before.take(p);
        let back = before.skip(p);
        assert(before =~= front + back);
        assert(before.insert(p, x) =~= front + seq![x] + back);
        Seq::filter_distributes_over_add(front, back, pred);
        Seq::filter_distributes_over_add(front + seq![x], back, pred);
        Seq::filter_distributes_over_add(front, seq![x], pred);
        inputs.lemma_filter_push(x, pred);
        assert(seq![x] =~= Seq::<Font>::empty().push(x));
        Seq::<Font>::empty().lemma_filter_push(x, pred);
        assert(Seq::<Font>::empty().filter(pred) =~= Seq::<Font>::empty());
        if sort_key(x) == k {
            assert(back.all(|f: Font| !pred(f)));
            back.lemma_all_neg_filter_empty(pred);
            assert(back.filter(pred) =~= Seq::<Font>::empty());
            assert(front.filter(pred) + seq![x] + back.filter(pred) =~= (front.filter(pred)
                + back.filter(pred)).push(x));
            assert(seq![x].filter(pred) =~= seq![x]);
            assert(inputs.push(x).filter(pred) == inputs.filter(pred).push(x));
        } else {
            assert(front.filter(pred) + Seq::<Font>::empty() + back.filter(pred) =~= front.filter(
                pred,
            ) + back.filter(pred));
            assert(seq![x].filter(pred) =~= Seq::<Font>::empty());
            assert(inputs.push(x).filter(pred) == inputs.filter(pred));
        }
    }
}

/// The catalog order of `fonts`: the same fonts, sorted by their names in
/// lower case; fonts whose lower-case names are equal keep their order.
pub fn sort_catalog(fonts: &Vec<Font>) -> (r: Vec<Font>)
    ensures
        r@.to_multiset() == fonts@.to_multiset(),
        sorted_by_name(r@),
        forall|k: Seq<char>| #[trigger] with_key(r@, k) == with_key(fonts@, k),
{
    broadcast use vstd::seq_lib::group_to_multiset_ensures;

    let mut out: Vec<Font> = Vec::new();
    let mut keys: Vec<String> = Vec::new();
    let mut i: usize = 0;
    assert(fonts@.subrange(0, 0) =~= Seq::<Font>::empty());
    while i < fonts.len()
        invariant
            i <= fonts@.len(),
            out@.len() == keys@.len(),
            forall|q: int| 0 <= q < out@.len() ==> #[trigger] keys@[q]@ == sort_key(out@[q]),
            sorted_by_name(out@),
            out@.to_multiset() == fonts@.subrange(0, i as int).to_multiset(),
            forall|k: Seq<char>| #[trigger]
                with_key(out@, k) == with_key(fonts@.subrange(0, i as int), k),
        decreases fonts@.len() - i,
    {
        let f = fonts[i].duplicate();
        let key = lowercase(f.name.as_str());
        let mut p: usize = 0;
        while p < out.len() && text_le_exec(keys[p].as_str(), key.as_str())
            invariant
                p <= out@.len(),
                out@.len() == keys@.len(),
                forall|q: int| 0 <= q < out@.len() ==> #[trigger] keys@[q]@ == sort_key(out@[q]),
                forall|q: int| 0 <= q < p ==> text_le(sort_key(#[trigger] out@[q]), key@),
            decreases out@.len() - p,
        {
            p += 1;
        }
        proof {
            if p < out@.len() {
                assert(keys@[p as int]@ == sort_key(out@[p as int]));
                lemma_text_le_total(sort_key(out@[p as int]), key@);
                lemma_text_le_reflexive(key@);
                assert forall|q: int| p <= q < out@.len() implies sort_key(#[trigger] out@[q])
                    != key@ by {
                    if q > p && sort_key(out@[q]) == key@ {
                        assert(text_le(sort_key(out@[p as int]), sort_key(out@[q])));
                    }
                }
                assert forall|q: int| p <= q < out@.len() implies text_le(
                    key@,
                    sort_key(#[trigger] out@[q]),
                ) by {
                    if q > p {
                        lemma_text_le_transitive(
                            key@,
                            sort_key(out@[p as int]),
                            sort_key(out@[q]),
                        );
                    }
                }
            }
        }
        let ghost old_out = out@;
        proof {
            lemma_insert_keeps_key_order(old_out, fonts@.subrange(0, i as int), f, p as int);
        }
        out.insert(p, f);
        keys.insert(p, key);
        assert(fonts@.subrange(0, i + 1) =~= fonts@.subrange(0, i as int).push(fonts@[i as int]));
        assert(out@.to_multiset() == old_out.insert(p as int, fonts@[i as int]).to_multiset());
        proof {
            vstd::seq_lib::to_multiset_insert(old_out, p as int, fonts@[i as int]);
            vstd::seq_lib::to_multiset_build(fonts@.subrange(0, i as int), fonts@[i as int]);
        }
        assert forall|a: int, b: int| 0 <= a < b < out@.len() implies text_le(
            sort_key(#[trigger] out@[a]),
            sort_key(#[trigger] out@[b]),
        ) by {
            if a < p && b == p {
            } else if a < p && b > p {
                lemma_text_le_transitive(sort_key(old_out[a]), key@, sort_key(old_out[b - 1]));
            } else if a == p {
            } else if a > p {
                assert(out@[a] == old_out[a - 1] && out@[b] == old_out[b - 1]);
            } else {
                assert(out@[a] == old_out[a] && out@[b] == old_out[b]);
            }
        }
        assert forall|q: int| 0 <= q < out@.len() implies #[trigger] keys@[q]@ == sort_key(out@[q]) by {
            if q < p {
            } else if q > p {
            }
        }
        i += 1;
    }
    assert(fonts@.subrange(0, i as int) =~= fonts@);
    out
}

} // verus!
