//! The freedesktop directories that hold application entries and icon
//! themes, from the XDG base directory variables, and the files in which an
//! icon name is looked for.
use vstd::prelude::*;
use vstd::string::StrSliceExecFns;

use crate::text::{chars_of, push_str, string_of, string_views};

verus! {

/// `Path::join` of `base` and `rel`, as text.
pub uninterp spec fn path_join(base: Seq<char>, rel: Seq<char>) -> Seq<char>;

#[verifier::external_body]
/// `Path::join`: the joined path is a function of the two paths alone,
/// named `path_join`; nothing more of it is stated. Both are UTF-8, so the
/// joined path is too and converts without loss.
fn join(base: &str, rel: &str) -> (r: String)
    ensures
        r@ == path_join(base@, rel@),
{
    std::path::Path::new(base).join(rel).to_string_lossy().into_owned()
}

/// The `:`-separated parts read so far, and the pending part.
pub open spec fn scan_parts(s: Seq<char>) -> (Seq<Seq<char>>, Seq<char>)
    decreases s.len(),
{
    if s.len() == 0 {
        (Seq::empty(), Seq::empty())
    } else {
        let (ps, cur) = scan_parts(s.drop_last());
        if s.last() == ':' {
            if cur.len() > 0 {
                (ps.push(cur), Seq::empty())
            } else {
                (ps, Seq::empty())
            }
        } else {
            (ps, cur.push(s.last()))
        }
    }
}

/// The non-empty parts of a `:`-separated list, in order.
pub open spec fn colon_parts(s: Seq<char>) -> Seq<Seq<char>> {
    let (ps, cur) = scan_parts(s);
    if cur.len() > 0 {
        ps.push(cur)
    } else {
        ps
    }
}

/// The non-empty parts of the `:`-separated list `s`, in order.
pub fn split_colon_list(s: &str) -> (r: Vec<String>)
    ensures
        string_views(r@) == colon_parts(s@),
{
    let v = chars_of(s);
    let mut r: Vec<String> = Vec::new();
    let mut start: usize = 0;
    let mut i: usize = 0;
    assert(v@.take(0) =~= Seq::<char>::empty());
    assert(string_views(r@) =~= Seq::<Seq<char>>::empty());
    while i < v.len()
        invariant
            0 <= start <= i <= v@.len(),
            v@ == s@,
            string_views(r@) == scan_parts(v@.take(i as int)).0,
            scan_parts(v@.take(i as int)).1 == v@.subrange(start as int, i as int),
        decreases v.len() - i,
    {
        assert(v@.take(i + 1).drop_last() =~= v@.take(i as int));
        if v[i] == ':' {
            if start < i {
                let w = string_of(&v, start, i);
                let ghost before = r@;
                r.push(w);
                assert(string_views(r@) =~= string_views(before).push(w@));
            }
            start = i + 1;
            assert(v@.subrange(start as int, i + 1) =~= Seq::<char>::empty());
        } else {
            assert(v@.subrange(start as int, i + 1) =~= v@.subrange(start as int, i as int).push(v@[i as int]));
        }
        i += 1;
    }
    assert(v@.take(v.len() as int) =~= v@);
    if start < v.len() {
        let w = string_of(&v, start, v.len());
        let ghost before = r@;
        r.push(w);
        assert(string_views(r@) =~= string_views(before).push(w@));
    }
    r
}

pub open spec fn opt_view(o: Option<&str>) -> Option<Seq<char>> {
    match o {
        Some(s) => Some(s@),
        None => None,
    }
}

/// The system data directories: `$XDG_DATA_DIRS` where it is set and not
/// empty, else the default list.
pub open spec fn data_dirs_list(xdg_data_dirs: Option<Seq<char>>) -> Seq<char> {
    match xdg_data_dirs {
        Some(d) if d.len() > 0 => d,
        _ => "/usr/local/share:/usr/share"@,
    }
}

/// The user's directory: `rel_data` under `$XDG_DATA_HOME` where it is set
/// and not empty, else `rel_home` under `$HOME` where that is set.
pub open spec fn user_dir(
    xdg_data_home: Option<Seq<char>>,
    home: Option<Seq<char>>,
    rel_data: Seq<char>,
    rel_home: Seq<char>,
) -> Seq<Seq<char>> {
    match xdg_data_home {
        Some(h) if h.len() > 0 => seq![path_join(h, rel_data)],
        _ => match home {
            Some(h) => seq![path_join(h, rel_home)],
            None => Seq::empty(),
        },
    }
}

/// `rel` under each of `dirs`.
pub open spec fn joined_all(dirs: Seq<Seq<char>>, rel: Seq<char>) -> Seq<Seq<char>> {
    Seq::new(dirs.len(), |i: int| path_join(dirs[i], rel))
}

fn push_user_dir(
    out: &mut Vec<String>,
    xdg_data_home: Option<&str>,
    home: Option<&str>,
    rel_data: &str,
    rel_home: &str,
)
    ensures
        string_views(final(out)@) == string_views(old(out)@) + user_dir(
            opt_view(xdg_data_home),
            opt_view(home),
            rel_data@,
            rel_home@,
        ),
{
    let ghost before = out@;
    match xdg_data_home {
        Some(h) if h.unicode_len() > 0 => {
            out.push(join(h, rel_data));
        },
        _ => match home {
            Some(h) => {
                out.push(join(h, rel_home));
            },
            None => {},
        },
    }
    assert(string_views(out@) =~= string_views(before) + user_dir(
        opt_view(xdg_data_home),
        opt_view(home),
        rel_data@,
        rel_home@,
    ));
}

fn push_joined_all(out: &mut Vec<String>, dirs: &Vec<String>, rel: &str)
    ensures
        string_views(final(out)@) == string_views(old(out)@) + joined_all(string_views(dirs@), rel@),
{
    let ghost before = out@;
    let mut i: usize = 0;
    while i < dirs.len()
        invariant
            0 <= i <= dirs@.len(),
            string_views(out@) =~= string_views(before) + joined_all(string_views(dirs@), rel@).take(i as int),
        decreases dirs.len() - i,
    {
        let ghost prev = out@;
        out.push(join(dirs[i].as_str(), rel));
        assert(string_views(out@) =~= string_views(prev).push(path_join(dirs@[i as int]@, rel@)));
        i += 1;
    }
    assert(joined_all(string_views(dirs@), rel@).take(i as int) =~= joined_all(string_views(dirs@), rel@));
}

fn data_dirs_of(xdg_data_dirs: Option<&str>) -> (r: Vec<String>)
    ensures
        string_views(r@) == colon_parts(data_dirs_list(opt_view(xdg_data_dirs))),
{
    match xdg_data_dirs {
        Some(d) if d.unicode_len() > 0 => split_colon_list(d),
        _ => split_colon_list("/usr/local/share:/usr/share"),
    }
}

/// The directories of application entries, in lookup order: the user's,
/// then each system data directory, then the flatpak exports of the user
/// and of the system.
pub open spec fn spec_standard_app_dirs(
    xdg_data_home: Option<Seq<char>>,
    home: Option<Seq<char>>,
    xdg_data_dirs: Option<Seq<char>>,
) -> Seq<Seq<char>> {
    user_dir(xdg_data_home, home, "applications"@, ".local/share/applications"@) + joined_all(
        colon_parts(data_dirs_list(xdg_data_dirs)),
        "applications"@,
    ) + match home {
        Some(h) => seq![path_join(h, ".local/share/flatpak/exports/share/applications"@)],
        None => Seq::empty(),
    } + seq!["/var/lib/flatpak/exports/share/applications"@]
}

/// The application directories for the values of `$XDG_DATA_HOME`, `$HOME`
/// and `$XDG_DATA_DIRS`, user-local first: entries found in a later one are
/// shadowed by those of the same name in an earlier one.
pub fn standard_app_dirs(xdg_data_home: Option<&str>, home: Option<&str>, xdg_data_dirs: Option<&str>) -> (r: Vec<
    String,
>)
    ensures
        string_views(r@) == spec_standard_app_dirs(opt_view(xdg_data_home), opt_view(home), opt_view(xdg_data_dirs)),
{
    let mut dirs: Vec<String> = Vec::new();
    assert(string_views(dirs@) =~= Seq::<Seq<char>>::empty());
    push_user_dir(&mut dirs, xdg_data_home, home, "applications", ".local/share/applications");
    let data = data_dirs_of(xdg_data_dirs);
    push_joined_all(&mut dirs, &data, "applications");
    let ghost mid = dirs@;
    if let Some(h) = home {
        dirs.push(join(h, ".local/share/flatpak/exports/share/applications"));
    }
    let ghost mid2 = dirs@;
    let mut system = String::new();
    push_str(&mut system, "/var/lib/flatpak/exports/share/applications");
    assert(system@ =~= "/var/lib/flatpak/exports/share/applications"@);
    dirs.push(system);
    assert(string_views(dirs@) =~= spec_standard_app_dirs(
        opt_view(xdg_data_home),
        opt_view(home),
        opt_view(xdg_data_dirs),
    ));
    dirs
}

/// The `hicolor` icon theme directories, user-local first.
pub open spec fn spec_icon_search_dirs(
    xdg_data_home: Option<Seq<char>>,
    home: Option<Seq<char>>,
    xdg_data_dirs: Option<Seq<char>>,
) -> Seq<Seq<char>> {
    user_dir(xdg_data_home, home, "icons/hicolor"@, ".local/share/icons/hicolor"@) + joined_all(
        colon_parts(data_dirs_list(xdg_data_dirs)),
        "icons/hicolor"@,
    )
}

/// The directories of the `hicolor` icon theme for the values of
/// `$XDG_DATA_HOME`, `$HOME` and `$XDG_DATA_DIRS`, user-local first.
pub fn icon_search_dirs(xdg_data_home: Option<&str>, home: Option<&str>, xdg_data_dirs: Option<&str>) -> (r: Vec<
    String,
>)
    ensures
        string_views(r@) == spec_icon_search_dirs(opt_view(xdg_data_home), opt_view(home), opt_view(xdg_data_dirs)),
{
    let mut dirs: Vec<String> = Vec::new();
    assert(string_views(dirs@) =~= Seq::<Seq<char>>::empty());
    push_user_dir(&mut dirs, xdg_data_home, home, "icons/hicolor", ".local/share/icons/hicolor");
    let data = data_dirs_of(xdg_data_dirs);
    push_joined_all(&mut dirs, &data, "icons/hicolor");
    dirs
}

/// `file` in the `apps` directory of the `size` directory of `base`.
pub open spec fn app_icon(base: Seq<char>, size: Seq<char>, file: Seq<char>) -> Seq<char> {
    path_join(path_join(path_join(base, size), "apps"@), file)
}

/// The files tried in one theme directory: the raster sizes, picker-friendly
/// first, then the scalable icon.
pub open spec fn theme_dir_candidates(base: Seq<char>, name: Seq<char>) -> Seq<Seq<char>> {
    let png = name + ".png"@;
    seq![
        app_icon(base, "128x128"@, png),
        app_icon(base, "256x256"@, png),
        app_icon(base, "64x64"@, png),
        app_icon(base, "96x96"@, png),
        app_icon(base, "192x192"@, png),
        app_icon(base, "48x48"@, png),
        app_icon(base, "32x32"@, png),
        app_icon(base, "scalable"@, name + ".svg"@),
    ]
}

/// The files tried in each theme directory, in order.
pub open spec fn theme_candidates(dirs: Seq<Seq<char>>, name: Seq<char>) -> Seq<Seq<char>>
    decreases dirs.len(),
{
    if dirs.len() == 0 {
        Seq::empty()
    } else {
        theme_candidates(dirs.drop_last(), name) + theme_dir_candidates(dirs.last(), name)
    }
}

/// The files in which the icon `name` is looked for, in order: none for an
/// empty name; the name itself when it is an absolute path; else each theme
/// directory, then the legacy pixmaps directory.
pub open spec fn spec_icon_candidates(name: Seq<char>, dirs: Seq<Seq<char>>) -> Seq<Seq<char>> {
    if name.len() == 0 {
        Seq::empty()
    } else if name[0] == '/' {
        seq![name]
    } else {
        theme_candidates(dirs, name) + seq![
            path_join("/usr/share/pixmaps"@, name + ".png"@),
            path_join("/usr/share/pixmaps"@, name + ".svg"@),
        ]
    }
}

fn icon_file(name: &str, ext: &str) -> (r: String)
    ensures
        r@ == name@ + ext@,
{
    let mut f = String::new();
    push_str(&mut f, name);
    push_str(&mut f, ext);
    assert(f@ =~= name@ + ext@);
    f
}

fn push_app_icon(out: &mut Vec<String>, base: &str, size: &str, file: &str)
    ensures
        string_views(final(out)@) == string_views(old(out)@).push(app_icon(base@, size@, file@)),
{
    let sized = join(base, size);
    let apps = join(sized.as_str(), "apps");
    let ghost before = out@;
    out.push(join(apps.as_str(), file));
    assert(string_views(out@) =~= string_views(before).push(app_icon(base@, size@, file@)));
}

/// The files in which to look for the icon `icon_name`, in the order they
/// are tried, given the theme directories `dirs` (see `icon_search_dirs`).
/// An absolute path is read as it is; the first file that reads wins.
pub fn icon_candidates(icon_name: &str, dirs: &Vec<String>) -> (r: Vec<String>)
    ensures
        string_views(r@) == spec_icon_candidates(icon_name@, string_views(dirs@)),
{
    let mut out: Vec<String> = Vec::new();
    let name = chars_of(icon_name);
    if name.len() == 0 {
        assert(string_views(out@) =~= Seq::<Seq<char>>::empty());
        return out;
    }
    if name[0] == '/' {
        out.push(string_of(&name, 0, name.len()));
        assert(name@.subrange(0, name@.len() as int) =~= icon_name@);
        assert(string_views(out@) =~= seq![icon_name@]);
        return out;
    }
    let png = icon_file(icon_name, ".png");
    let svg = icon_file(icon_name, ".svg");
    let mut i: usize = 0;
    assert(string_views(dirs@).take(0) =~= Seq::<Seq<char>>::empty());
    assert(string_views(out@) =~= Seq::<Seq<char>>::empty());
    while i < dirs.len()
        invariant
            0 <= i <= dirs@.len(),
            png@ == icon_name@ + ".png"@,
            svg@ == icon_name@ + ".svg"@,
            string_views(out@) == theme_candidates(string_views(dirs@).take(i as int), icon_name@),
        decreases dirs.len() - i,
    {
        let base = dirs[i].as_str();
        let ghost before = out@;
        push_app_icon(&mut out, base, "128x128", png.as_str());
        push_app_icon(&mut out, base, "256x256", png.as_str());
        push_app_icon(&mut out, base, "64x64", png.as_str());
        push_app_icon(&mut out, base, "96x96", png.as_str());
        push_app_icon(&mut out, base, "192x192", png.as_str());
        push_app_icon(&mut out, base, "48x48", png.as_str());
        push_app_icon(&mut out, base, "32x32", png.as_str());
        push_app_icon(&mut out, base, "scalable", svg.as_str());
        assert(string_views(dirs@).take(i + 1).drop_last() =~= string_views(dirs@).take(i as int));
        assert(string_views(out@) =~= string_views(before) + theme_dir_candidates(dirs@[i as int]@, icon_name@));
        i += 1;
    }
    assert(string_views(dirs@).take(i as int) =~= string_views(dirs@));
    let ghost before = out@;
    out.push(join("/usr/share/pixmaps", png.as_str()));
    out.push(join("/usr/share/pixmaps", svg.as_str()));
    assert(string_views(out@) =~= string_views(before) + seq![
        path_join("/usr/share/pixmaps"@, icon_name@ + ".png"@),
        path_join("/usr/share/pixmaps"@, icon_name@ + ".svg"@),
    ]);
    out
}

} // verus!
