//! The embedded frontend bundle, served below `/web` without boundary checks,
//! since the login page needs it. There is no fallback to the index page: what
//! is not in the bundle is not found.

use crate::error;
use crate::error::{AppError, AppErrorView};
use crate::text;
use vstd::prelude::*;

verus! {

/// A file of the bundle to be served, and its content type.
#[derive(Debug)]
pub struct Asset {
    pub path: String,
    pub content_type: String,
}

#[verifier::ext_equal]
pub struct AssetView {
    pub path: Seq<char>,
    pub content_type: Seq<char>,
}

impl View for Asset {
    type V = AssetView;

    open spec fn view(&self) -> AssetView {
        AssetView { path: self.path@, content_type: self.content_type@ }
    }
}

/// What `mime_guess` makes of a path: the media type that it guesses first, or
/// the one for arbitrary bytes, and the part of it before the slash.
pub uninterp spec fn guessed_mime(path: Seq<char>) -> (Seq<char>, Seq<char>);

/// `mime_guess::from_path` and `first_or_octet_stream`, with the `Display` and
/// the `type_` of the media type that comes back. It depends on the path
/// alone.
#[verifier::external_body]
fn guess_mime(path: &str) -> (r: (String, String))
    ensures
        r.deep_view() == guessed_mime(path@),
{
    let mime = mime_guess::from_path(path).first_or_octet_stream();
    (mime.to_string(), mime.type_().to_string())
}

/// The content type of a media type: text is said to be UTF-8.
pub open spec fn content_type_of(mime: (Seq<char>, Seq<char>)) -> Seq<char> {
    if mime.1 == "text"@ {
        mime.0 + "; charset=utf-8"@
    } else {
        mime.0
    }
}

/// The content type of a media type.
pub fn content_type(mime: &str, main_type: &str) -> (r: String)
    ensures
        r@ == content_type_of((mime@, main_type@)),
{
    if text::same_text(main_type, "text") {
        mime.to_owned().concat("; charset=utf-8")
    } else {
        mime.to_owned()
    }
}

/// Some part between slashes leads upwards.
pub open spec fn climbs(rest: Seq<char>) -> bool {
    text::split_at_each(rest, '/').contains(".."@)
}

/// The path without the slashes that it begins with.
pub open spec fn without_slashes(rest: Seq<char>) -> Seq<char>
    decreases rest.len(),
{
    if rest.len() > 0 && rest[0] == '/' {
        without_slashes(rest.skip(1))
    } else {
        rest
    }
}

/// The files that a path may stand for, in order: itself, or the index page of
/// a directory.
pub open spec fn candidates(path: Seq<char>) -> Seq<Seq<char>> {
    if path.len() == 0 {
        seq!["index.html"@]
    } else if path.last() == '/' {
        seq![path + "index.html"@]
    } else {
        seq![path, path + "/index.html"@]
    }
}

/// The first of these that is in the bundle.
pub open spec fn first_present(paths: Seq<Seq<char>>, files: Seq<Seq<char>>) -> Option<Seq<char>>
    decreases paths.len(),
{
    if paths.len() == 0 {
        None
    } else if files.contains(paths[0]) {
        Some(paths[0])
    } else {
        first_present(paths.skip(1), files)
    }
}

/// What is served for a path below `/web`.
pub open spec fn served(rest: Seq<char>, files: Seq<Seq<char>>) -> Result<AssetView, AppErrorView> {
    if climbs(rest) {
        Err(error::not_found_error())
    } else {
        match first_present(candidates(without_slashes(rest)), files) {
            None => Err(error::not_found_error()),
            Some(path) => Ok(AssetView { path, content_type: content_type_of(guessed_mime(path)) }),
        }
    }
}

fn is_file(path: &str, files: &Vec<String>) -> (r: bool)
    ensures
        r == files.deep_view().contains(path@),
{
    let ghost all = files.deep_view();
    let mut i: usize = 0;
    while i < files.len()
        invariant
            i <= files.len(),
            all == files.deep_view(),
            forall|k: int| 0 <= k < i ==> #[trigger] all[k] != path@,
        decreases files.len() - i,
    {
        assert(all[i as int] == files@[i as int]@);
        if text::same_text(&files[i], path) {
            assert(all[i as int] == path@);
            return true;
        }
        i = i + 1;
    }
    false
}

fn leads_up(rest: &str) -> (r: bool)
    ensures
        r == climbs(rest@),
{
    let parts = text::split(rest, '/');
    is_file("..", &parts)
}

fn strip_slashes(rest: &str) -> (r: &str)
    ensures
        r@ == without_slashes(rest@),
{
    let chars = text::chars_of(rest);
    let mut i: usize = 0;
    assert(rest@.skip(0) =~= rest@);
    while i < chars.len() && chars[i] == '/'
        invariant
            chars@ == rest@,
            i <= chars.len(),
            without_slashes(rest@) == without_slashes(rest@.skip(i as int)),
        decreases chars.len() - i,
    {
        assert(rest@.skip(i as int).skip(1) =~= rest@.skip(i + 1));
        i = i + 1;
    }
    let r = rest.substring_char(i, chars.len());
    assert(r@ =~= rest@.skip(i as int));
    r
}

fn serve(path: &str) -> (r: Asset)
    ensures
        r@ == (AssetView { path: path@, content_type: content_type_of(guessed_mime(path@)) }),
{
    let (mime, main_type) = guess_mime(path);
    Asset { path: path.to_owned(), content_type: content_type(&mime, &main_type) }
}

/// The file of the bundle that a path below `/web` stands for. `files` are the
/// paths in the bundle. Paths that lead upwards are refused outright.
pub fn serve_web(rest: &str, files: &Vec<String>) -> (r: Result<Asset, AppError>)
    ensures
        error::viewed(r) == served(rest@, files.deep_view()),
{
    if leads_up(rest) {
        return Err(error::not_found());
    }
    let path = strip_slashes(rest);
    let mut paths: Vec<String> = Vec::new();
    let len: usize = path.unicode_len();
    if len == 0 {
        paths.push("index.html".to_owned());
    } else if path.get_char(len - 1) == '/' {
        paths.push(path.to_owned().concat("index.html"));
    } else {
        paths.push(path.to_owned());
        paths.push(path.to_owned().concat("/index.html"));
    }
    assert(paths.deep_view() =~= candidates(path@));
    let ghost all = paths.deep_view();
    let mut i: usize = 0;
    assert(all.skip(0) =~= all);
    while i < paths.len()
        invariant
            i <= paths.len(),
            all == paths.deep_view(),
            all == candidates(without_slashes(rest@)),
            !climbs(rest@),
            first_present(all, files.deep_view()) == first_present(
                all.skip(i as int),
                files.deep_view(),
            ),
        decreases paths.len() - i,
    {
        assert(all.skip(i as int)[0] == paths@[i as int]@);
        assert(all.skip(i as int).skip(1) =~= all.skip(i + 1));
        if is_file(&paths[i], files) {
            return Ok(serve(&paths[i]));
        }
        i = i + 1;
    }
    Err(error::not_found())
}

/// Whether the bundle has an index page; one without is a broken build.
pub fn bundle_present(files: &Vec<String>) -> (r: bool)
    ensures
        r == files.deep_view().contains("index.html"@),
{
    is_file("index.html", files)
}

/// Only files of the bundle are served, and none for a path that leads
/// upwards.
pub proof fn law_only_the_bundle_is_served(rest: Seq<char>, files: Seq<Seq<char>>)
    ensures
        served(rest, files) matches Ok(asset) ==> files.contains(asset.path) && !climbs(rest),
        climbs(rest) ==> served(rest, files) == Err::<AssetView, AppErrorView>(
            error::not_found_error(),
        ),
{
    reveal_with_fuel(first_present, 3);
}

/// The root of the bundle is its index page, however many slashes name it.
pub proof fn law_root_is_the_index(rest: Seq<char>, files: Seq<Seq<char>>)
    requires
        forall|i: int| 0 <= i < rest.len() ==> #[trigger] rest[i] == '/',
        files.contains("index.html"@),
    ensures
        served(rest, files) matches Ok(asset) && asset.path == "index.html"@,
{
    lemma_slashes(rest);
    reveal_strlit("..");
    assert(".."@.len() == 2);
    reveal_with_fuel(first_present, 2);
}

proof fn lemma_slashes(rest: Seq<char>)
    requires
        forall|i: int| 0 <= i < rest.len() ==> #[trigger] rest[i] == '/',
    ensures
        without_slashes(rest).len() == 0,
        forall|i: int|
            0 <= i < text::split_at_each(rest, '/').len() ==> (#[trigger] text::split_at_each(
                rest,
                '/',
            )[i]).len() == 0,
    decreases rest.len(),
{
    if rest.len() > 0 {
        assert(rest[0] == '/');
        let fewer = rest.drop_last();
        assert(rest.skip(1) =~= fewer);
        assert(rest[rest.len() - 1] == '/');
        lemma_slashes(fewer);
        let pieces = text::split_at_each(fewer, '/');
        assert(text::split_at_each(rest, '/') == pieces.push(Seq::empty()));
        assert forall|i: int| 0 <= i < text::split_at_each(rest, '/').len() implies (
        #[trigger] text::split_at_each(rest, '/')[i]).len() == 0 by {
            if i < pieces.len() {
                assert(pieces[i].len() == 0);
            }
        }
    }
}

/// A path below the bundle stands for the file of that name where there is one,
/// and else for the index page of a directory of that name; slashes in front
/// make no difference. Where there is neither, or the path leads upwards, it is
/// not found.
pub proof fn law_path_stands_for_its_file(rest: &str, files: &Vec<String>, r: Result<
    Asset,
    AppError,
>)
    requires
        call_ensures(serve_web, (rest, files), r),
        rest@.len() > 0,
        rest@[0] != '/',
        rest@.last() != '/',
    ensures
        ({
            let bundle = files.deep_view();
            let up = text::split_at_each(rest@, '/').contains(".."@);
            &&& up ==> error::fails_with(r, 404, "not-found"@)
            &&& !up && bundle.contains(rest@) ==> r is Ok && r->Ok_0.path@ == rest@
            &&& !up && !bundle.contains(rest@) && bundle.contains(rest@ + "/index.html"@) ==> r
                is Ok && r->Ok_0.path@ == rest@ + "/index.html"@
            &&& !up && !bundle.contains(rest@) && !bundle.contains(rest@ + "/index.html"@)
                ==> error::fails_with(r, 404, "not-found"@)
        }),
{
    reveal_with_fuel(first_present, 3);
    let paths = candidates(rest@);
    assert(paths.skip(1)[0] == paths[1]);
    assert(paths.skip(1).skip(1).len() == 0);
}

/// A path that ends in a slash stands for the index page of that directory and
/// for nothing else.
pub proof fn law_directory_stands_for_its_index(rest: &str, files: &Vec<String>, r: Result<
    Asset,
    AppError,
>)
    requires
        call_ensures(serve_web, (rest, files), r),
        rest@.len() > 0,
        rest@[0] != '/',
        rest@.last() == '/',
        !text::split_at_each(rest@, '/').contains(".."@),
    ensures
        files.deep_view().contains(rest@ + "index.html"@) ==> r is Ok && r->Ok_0.path@ == rest@
            + "index.html"@,
        !files.deep_view().contains(rest@ + "index.html"@) ==> error::fails_with(
            r,
            404,
            "not-found"@,
        ),
{
    reveal_with_fuel(first_present, 2);
    assert(candidates(rest@).skip(1).len() == 0);
}

/// Slashes in front of a path make no difference.
pub proof fn law_leading_slashes_are_ignored(
    rest: &str,
    slashed: &str,
    files: &Vec<String>,
    r: Result<Asset, AppError>,
    q: Result<Asset, AppError>,
)
    requires
        call_ensures(serve_web, (rest, files), r),
        call_ensures(serve_web, (slashed, files), q),
        slashed@ == seq!['/'] + rest@,
    ensures
        error::viewed(r) == error::viewed(q),
{
    assert(slashed@.skip(1) =~= rest@);
    let none = Seq::<char>::empty();
    assert(slashed@ =~= none + seq!['/'] + rest@);
    text::lemma_split_around(none, '/', rest@);
    text::lemma_split_one(none, '/');
    reveal_strlit("..");
    let pieces = text::split_at_each(rest@, '/');
    let more = text::split_at_each(slashed@, '/');
    assert(more =~= seq![none] + pieces);
    if pieces.contains(".."@) {
        let k = choose|k: int| 0 <= k < pieces.len() && pieces[k] == ".."@;
        assert(more[k + 1] == ".."@);
    }
    if more.contains(".."@) {
        let k = choose|k: int| 0 <= k < more.len() && more[k] == ".."@;
        assert(k > 0) by {
            if k == 0 {
                assert(more[0].len() == 0);
                assert(".."@.len() == 2);
            }
        }
        assert(pieces[k - 1] == ".."@);
    }
}

/// A file is served as what its name makes it, and text is said to be UTF-8,
/// nothing else is.
pub proof fn law_content_type_goes_by_the_name(
    rest: &str,
    files: &Vec<String>,
    r: Result<Asset, AppError>,
    mime: &str,
    main_type: &str,
    said: String,
)
    requires
        call_ensures(serve_web, (rest, files), r),
        call_ensures(content_type, (mime, main_type), said),
    ensures
        main_type@ == "text"@ ==> said@ == mime@ + "; charset=utf-8"@,
        main_type@ != "text"@ ==> said@ == mime@,
        r matches Ok(asset) ==> guessed_mime(asset.path@) == (mime@, main_type@)
            ==> asset.content_type@ == said@,
{
    reveal_with_fuel(first_present, 3);
}

/// A bundle without an index page is none.
pub proof fn law_bundle_has_an_index(files: &Vec<String>, r: bool)
    requires
        call_ensures(bundle_present, (files,), r),
    ensures
        r <==> exists|i: int| 0 <= i < files.len() && (#[trigger] files@[i])@ == "index.html"@,
{
    let all = files.deep_view();
    if r {
        let i = choose|i: int| 0 <= i < all.len() && all[i] == "index.html"@;
        assert(files@[i]@ == "index.html"@);
    }
    if exists|i: int| 0 <= i < files.len() && (#[trigger] files@[i])@ == "index.html"@ {
        let i = choose|i: int| 0 <= i < files.len() && (#[trigger] files@[i])@ == "index.html"@;
        assert(all[i] == "index.html"@);
    }
}

} // verus!
