//! Reading freedesktop `.desktop` entries and resolving runtime window
//! classes to installed applications.
use vstd::hash_map::StringHashMap;
use vstd::prelude::*;
use vstd::string::StrSliceExecFns;

use crate::text::{
    scan_tokens, string_views, tokens, contains_char, is_whitespace, is_ws, lemma_first_index_hit, lemma_first_index_step, lowercase,
    to_lowercase, chars_of, eq_ignore_ascii_case, find_char, first_index, slice_eq, slice_eq_ignore_ascii_case, string_of,
    trim, trim_bounds,
};

use crate::privacy::{extension_of, opt_str, path_extension};

verus! {

/// The last component of a path without its extension (`Path::file_stem`),
/// as text.
pub uninterp spec fn path_file_stem(p: Seq<char>) -> Option<Seq<char>>;

#[verifier::external_body]
/// `Path::file_stem` of `p`: its result is a function of `p` alone, named
/// `path_file_stem`; nothing more of it is stated.
fn file_stem_of(p: &str) -> (r: Option<&str>)
    ensures
        opt_str(r) == path_file_stem(p@),
{
    match std::path::Path::new(p).file_stem() {
        Some(s) => s.to_str(),
        None => None,
    }
}

/// The file stem under which the `.desktop` file at `path` is indexed:
/// only a file with the extension `desktop` is an entry.
pub open spec fn spec_desktop_entry_stem(path: Seq<char>) -> Option<Seq<char>> {
    if path_extension(path) == Some("desktop"@) {
        path_file_stem(path)
    } else {
        None
    }
}

/// The stem of the `.desktop` file at `path`; `None` for a file with another
/// extension, or without a stem.
pub fn desktop_entry_stem(path: &str) -> (r: Option<String>)
    ensures
        match r {
            Some(stem) => spec_desktop_entry_stem(path@) == Some(stem@),
            None => spec_desktop_entry_stem(path@) is None,
        },
{
    let is_desktop = match extension_of(path) {
        Some(e) => crate::text::str_eq(e, "desktop"),
        None => false,
    };
    if !is_desktop {
        return None;
    }
    match file_stem_of(path) {
        Some(stem) => Some(String::from_str(stem)),
        None => None,
    }
}

/// One installed application learned from a `.desktop` file.
#[derive(Debug)]
pub struct DesktopAppMetadata {
    /// `Name=` field: the human-readable display name.
    pub display_name: String,
    /// `Icon=` field: a freedesktop icon name or an absolute path.
    pub icon_name: Option<String>,
}

impl Clone for DesktopAppMetadata {
    fn clone(&self) -> (r: Self)
        ensures
            r == *self,
    {
        DesktopAppMetadata {
            display_name: self.display_name.clone(),
            icon_name: match &self.icon_name {
                Some(s) => Some(s.clone()),
                None => None,
            },
        }
    }
}

/// The fields of the `[Desktop Entry]` section that the picker uses.
#[derive(Debug, Default)]
pub struct ParsedDesktopEntry {
    pub name: Option<String>,
    pub icon: Option<String>,
    pub startup_wm_class: Option<String>,
    pub exec_command: Option<String>,
}

pub open spec fn opt_view(o: Option<String>) -> Option<Seq<char>> {
    match o {
        None => None,
        Some(s) => Some(s@),
    }
}

/// The state of reading a `.desktop` file line by line.
pub struct EntryScan {
    /// inside the `[Desktop Entry]` section
    pub in_section: bool,
    /// a later section header ended the reading
    pub stopped: bool,
    pub name: Option<Seq<char>>,
    pub icon: Option<Seq<char>>,
    pub startup_wm_class: Option<Seq<char>>,
    pub exec_command: Option<Seq<char>>,
    pub entry_type: Option<Seq<char>>,
    pub hidden: bool,
    pub no_display: bool,
}

pub open spec fn scan_start() -> EntryScan {
    EntryScan {
        in_section: false,
        stopped: false,
        name: None,
        icon: None,
        startup_wm_class: None,
        exec_command: None,
        entry_type: None,
        hidden: false,
        no_display: false,
    }
}

/// Apply one `key=value` pair of the `[Desktop Entry]` section.
pub open spec fn apply_key(st: EntryScan, key: Seq<char>, value: Seq<char>) -> EntryScan {
    if key == "Name"@ {
        EntryScan { name: Some(value), ..st }
    } else if key == "Icon"@ {
        EntryScan { icon: Some(value), ..st }
    } else if key == "StartupWMClass"@ {
        EntryScan { startup_wm_class: Some(value), ..st }
    } else if key == "Exec"@ {
        EntryScan { exec_command: Some(value), ..st }
    } else if key == "Type"@ {
        EntryScan { entry_type: Some(value), ..st }
    } else if key == "Hidden"@ {
        EntryScan { hidden: eq_ignore_ascii_case(value, "true"@), ..st }
    } else if key == "NoDisplay"@ {
        EntryScan { no_display: eq_ignore_ascii_case(value, "true"@), ..st }
    } else {
        st
    }
}

/// Read one line: blank lines and `#` comments are skipped; a section header
/// enters `[Desktop Entry]` or, for any other section, ends the reading; inside
/// the section a line is split at its first `=` into a trimmed key and value.
pub open spec fn scan_line(st: EntryScan, raw: Seq<char>) -> EntryScan {
    let line = trim(raw);
    if st.stopped {
        st
    } else if line.len() == 0 || line[0] == '#' {
        st
    } else if line[0] == '[' && line.last() == ']' {
        if line == "[Desktop Entry]"@ {
            EntryScan { in_section: true, ..st }
        } else {
            EntryScan { in_section: false, stopped: true, ..st }
        }
    } else if !st.in_section {
        st
    } else {
        match first_index(line, |c: char| c == '=') {
            None => st,
            Some(p) => apply_key(st, trim(line.take(p)), trim(line.skip(p + 1))),
        }
    }
}

/// The state after the complete lines of `s`, and the pending last line.
pub open spec fn scan_text(s: Seq<char>) -> (EntryScan, Seq<char>)
    decreases s.len(),
{
    if s.len() == 0 {
        (scan_start(), Seq::empty())
    } else {
        let (st, cur) = scan_text(s.drop_last());
        if s.last() == '\n' {
            (scan_line(st, cur), Seq::empty())
        } else {
            (st, cur.push(s.last()))
        }
    }
}

/// The `[Desktop Entry]` of `contents`, unless the entry is not of
/// `Type=Application` or is `Hidden=true` / `NoDisplay=true`.
pub open spec fn spec_parse_desktop_entry(contents: Seq<char>) -> Option<EntryScan> {
    let (st, cur) = scan_text(contents);
    let fin = scan_line(st, cur);
    if fin.entry_type != Some("Application"@) || fin.hidden || fin.no_display {
        None
    } else {
        Some(fin)
    }
}

struct EntryBuilder {
    in_section: bool,
    stopped: bool,
    name: Option<String>,
    icon: Option<String>,
    startup_wm_class: Option<String>,
    exec_command: Option<String>,
    entry_type: Option<String>,
    hidden: bool,
    no_display: bool,
}

impl View for EntryBuilder {
    type V = EntryScan;

    closed spec fn view(&self) -> EntryScan {
        EntryScan {
            in_section: self.in_section,
            stopped: self.stopped,
            name: opt_view(self.name),
            icon: opt_view(self.icon),
            startup_wm_class: opt_view(self.startup_wm_class),
            exec_command: opt_view(self.exec_command),
            entry_type: opt_view(self.entry_type),
            hidden: self.hidden,
            no_display: self.no_display,
        }
    }
}

fn apply_key_exec(st: &mut EntryBuilder, v: &Vec<char>, klo: usize, khi: usize, vlo: usize, vhi: usize)
    requires
        klo <= khi <= v@.len(),
        vlo <= vhi <= v@.len(),
    ensures
        final(st)@ == apply_key(old(st)@, v@.subrange(klo as int, khi as int), v@.subrange(vlo as int, vhi as int)),
{
    let ghost value = v@.subrange(vlo as int, vhi as int);
    if slice_eq(v, klo, khi, "Name") {
        st.name = Some(string_of(v, vlo, vhi));
    } else if slice_eq(v, klo, khi, "Icon") {
        st.icon = Some(string_of(v, vlo, vhi));
    } else if slice_eq(v, klo, khi, "StartupWMClass") {
        st.startup_wm_class = Some(string_of(v, vlo, vhi));
    } else if slice_eq(v, klo, khi, "Exec") {
        st.exec_command = Some(string_of(v, vlo, vhi));
    } else if slice_eq(v, klo, khi, "Type") {
        st.entry_type = Some(string_of(v, vlo, vhi));
    } else if slice_eq(v, klo, khi, "Hidden") {
        st.hidden = slice_eq_ignore_ascii_case(v, vlo, vhi, "true");
    } else if slice_eq(v, klo, khi, "NoDisplay") {
        st.no_display = slice_eq_ignore_ascii_case(v, vlo, vhi, "true");
    }
}

fn scan_line_exec(st: &mut EntryBuilder, v: &Vec<char>, lo: usize, hi: usize)
    requires
        lo <= hi <= v@.len(),
    ensures
        final(st)@ == scan_line(old(st)@, v@.subrange(lo as int, hi as int)),
{
    let (a, b) = trim_bounds(v, lo, hi);
    let ghost line = v@.subrange(a as int, b as int);
    if st.stopped {
        return;
    }
    if a == b || v[a] == '#' {
        return;
    }
    if v[a] == '[' && v[b - 1] == ']' {
        if slice_eq(v, a, b, "[Desktop Entry]") {
            st.in_section = true;
        } else {
            st.in_section = false;
            st.stopped = true;
        }
        return;
    }
    if !st.in_section {
        return;
    }
    match find_char(v, a, b, '=') {
        None => {},
        Some(p) => {
            let (klo, khi) = trim_bounds(v, a, a + p);
            let (vlo, vhi) = trim_bounds(v, a + p + 1, b);
            assert(line.take(p as int) =~= v@.subrange(a as int, a + p));
            assert(line.skip(p + 1) =~= v@.subrange(a + p + 1, b as int));
            apply_key_exec(st, v, klo, khi, vlo, vhi);
        },
    }
}

/// Reads the `[Desktop Entry]` section of a `.desktop` file. Reading stops at
/// the first other section header. Returns `None` when the entry is not of
/// `Type=Application`, or is `Hidden=true` or `NoDisplay=true`.
pub fn parse_desktop_entry(contents: &str) -> (r: Option<ParsedDesktopEntry>)
    ensures
        match r {
            None => spec_parse_desktop_entry(contents@) is None,
            Some(e) => spec_parse_desktop_entry(contents@) matches Some(f) && f.name == opt_view(e.name)
                && f.icon == opt_view(e.icon) && f.startup_wm_class == opt_view(e.startup_wm_class)
                && f.exec_command == opt_view(e.exec_command),
        },
{
    let v = chars_of(contents);
    let mut st = EntryBuilder {
        in_section: false,
        stopped: false,
        name: None,
        icon: None,
        startup_wm_class: None,
        exec_command: None,
        entry_type: None,
        hidden: false,
        no_display: false,
    };
    let mut line_start: usize = 0;
    let mut i: usize = 0;
    assert(v@.take(0) =~= Seq::<char>::empty());
    while i < v.len()
        invariant
            0 <= line_start <= i <= v@.len(),
            v@ == contents@,
            st@ == scan_text(v@.take(i as int)).0,
            scan_text(v@.take(i as int)).1 == v@.subrange(line_start as int, i as int),
        decreases v.len() - i,
    {
        assert(v@.take(i + 1).drop_last() =~= v@.take(i as int));
        if v[i] == '\n' {
            scan_line_exec(&mut st, &v, line_start, i);
            line_start = i + 1;
            assert(v@.subrange(line_start as int, i + 1) =~= Seq::<char>::empty());
        } else {
            assert(v@.subrange(line_start as int, i + 1) =~= v@.subrange(line_start as int, i as int).push(v@[i as int]));
        }
        i += 1;
    }
    assert(v@.take(v.len() as int) =~= v@);
    scan_line_exec(&mut st, &v, line_start, v.len());
    let is_application = match &st.entry_type {
        Some(t) => {
            let tc = chars_of(t.as_str());
            slice_eq(&tc, 0, tc.len(), "Application")
        },
        None => false,
    };
    proof {
        if let Some(t) = st.entry_type {
            assert(t@.subrange(0, t@.len() as int) =~= t@);
        }
    }
    if !is_application || st.hidden || st.no_display {
        return None;
    }
    Some(ParsedDesktopEntry { name: st.name, icon: st.icon, startup_wm_class: st.startup_wm_class, exec_command: st.exec_command })
}


pub open spec fn is_quote(c: char) -> bool {
    c == '"' || c == '\''
}

pub open spec fn trim_quotes_start(s: Seq<char>) -> Seq<char>
    decreases s.len(),
{
    if s.len() > 0 && is_quote(s[0]) {
        trim_quotes_start(s.drop_first())
    } else {
        s
    }
}

pub open spec fn trim_quotes_end(s: Seq<char>) -> Seq<char>
    decreases s.len(),
{
    if s.len() > 0 && is_quote(s.last()) {
        trim_quotes_end(s.drop_last())
    } else {
        s
    }
}

/// `s` without surrounding single or double quotes.
pub open spec fn trim_quotes(s: Seq<char>) -> Seq<char> {
    trim_quotes_end(trim_quotes_start(s))
}

/// What follows `https://` or `http://` at the start of `t`.
pub open spec fn after_scheme(t: Seq<char>) -> Option<Seq<char>> {
    if t.len() >= 8 && t.take(8) == "https://"@ {
        Some(t.skip(8))
    } else if t.len() >= 7 && t.take(7) == "http://"@ {
        Some(t.skip(7))
    } else {
        None
    }
}

pub open spec fn ends_host(c: char) -> bool {
    c == '/' || c == '?' || c == '#' || c == ':'
}

/// The host of the URL in the token `t`, when it is an `http(s)://` URL whose
/// host (up to the first `/`, `?`, `#` or `:`) is non-empty and holds a dot.
pub open spec fn host_of_token(t: Seq<char>) -> Option<Seq<char>> {
    match after_scheme(trim_quotes(t)) {
        None => None,
        Some(after) => {
            let end = match first_index(after, |c: char| ends_host(c)) {
                Some(i) => i,
                None => after.len() as int,
            };
            let host = after.take(end);
            if host.len() == 0 || !host.contains('.') {
                None
            } else {
                Some(host)
            }
        },
    }
}

/// The lower-cased hosts of the URL tokens among `ts`, in order.
pub open spec fn hosts_in(ts: Seq<Seq<char>>) -> Seq<Seq<char>>
    decreases ts.len(),
{
    if ts.len() == 0 {
        Seq::empty()
    } else {
        let rest = hosts_in(ts.drop_last());
        match host_of_token(ts.last()) {
            Some(h) => rest.push(lowercase(h)),
            None => rest,
        }
    }
}

fn trim_quote_bounds(v: &Vec<char>, lo: usize, hi: usize) -> (r: (usize, usize))
    requires
        lo <= hi <= v@.len(),
    ensures
        lo <= r.0 <= r.1 <= hi,
        v@.subrange(r.0 as int, r.1 as int) == trim_quotes(v@.subrange(lo as int, hi as int)),
{
    let mut a = lo;
    while a < hi && (v[a] == '"' || v[a] == '\'')
        invariant
            lo <= a <= hi <= v@.len(),
            trim_quotes_start(v@.subrange(lo as int, hi as int)) == trim_quotes_start(v@.subrange(a as int, hi as int)),
        decreases hi - a,
    {
        assert(v@.subrange(a as int, hi as int).drop_first() =~= v@.subrange(a + 1, hi as int));
        a += 1;
    }
    let mut b = hi;
    while b > a && (v[b - 1] == '"' || v[b - 1] == '\'')
        invariant
            lo <= a <= b <= hi <= v@.len(),
            trim_quotes(v@.subrange(lo as int, hi as int)) == trim_quotes_end(v@.subrange(a as int, b as int)),
        decreases b - a,
    {
        assert(v@.subrange(a as int, b as int).drop_last() =~= v@.subrange(a as int, b - 1));
        b -= 1;
    }
    (a, b)
}

fn find_host_end(v: &Vec<char>, lo: usize, hi: usize) -> (r: usize)
    requires
        lo <= hi <= v@.len(),
    ensures
        lo <= r <= hi,
        r - lo == match first_index(v@.subrange(lo as int, hi as int), |c: char| ends_host(c)) {
            Some(i) => i,
            None => hi - lo,
        },
{
    let ghost s = v@.subrange(lo as int, hi as int);
    let ghost pred = |c: char| ends_host(c);
    let mut i = lo;
    assert(s.skip(0) =~= s);
    while i < hi
        invariant
            lo <= i <= hi <= v@.len(),
            s == v@.subrange(lo as int, hi as int),
            pred == (|c: char| ends_host(c)),
            first_index(s, pred) == match first_index(s.skip(i - lo), pred) {
                None => None,
                Some(k) => Some(k + (i - lo)),
            },
        decreases hi - i,
    {
        let c = v[i];
        if c == '/' || c == '?' || c == '#' || c == ':' {
            proof {
                lemma_first_index_hit(s, pred, i - lo);
            }
            return i;
        }
        proof {
            lemma_first_index_step(s, pred, i - lo);
        }
        i += 1;
    }
    assert(s.skip(i - lo) =~= Seq::<char>::empty());
    hi
}

/// Append the lower-cased host of the URL token `v[lo..hi]`, if it is one.
fn push_token_host(v: &Vec<char>, lo: usize, hi: usize, hosts: &mut Vec<String>)
    requires
        lo <= hi <= v@.len(),
    ensures
        string_views(final(hosts)@) == match host_of_token(v@.subrange(lo as int, hi as int)) {
            Some(h) => string_views(old(hosts)@).push(lowercase(h)),
            None => string_views(old(hosts)@),
        },
{
    let (a, b) = trim_quote_bounds(v, lo, hi);
    let ghost q = v@.subrange(a as int, b as int);
    let start = if b - a >= 8 && slice_eq(v, a, a + 8, "https://") {
        assert(q.take(8) =~= v@.subrange(a as int, a + 8));
        a + 8
    } else if b - a >= 7 && slice_eq(v, a, a + 7, "http://") {
        assert(q.take(7) =~= v@.subrange(a as int, a + 7));
        proof {
            if q.len() >= 8 {
                assert(q.take(8) =~= v@.subrange(a as int, a + 8));
            }
        }
        a + 7
    } else {
        proof {
            if q.len() >= 8 {
                assert(q.take(8) =~= v@.subrange(a as int, a + 8));
            }
            if q.len() >= 7 {
                assert(q.take(7) =~= v@.subrange(a as int, a + 7));
            }
        }
        return;
    };
    assert(q.skip(start - a) =~= v@.subrange(start as int, b as int));
    let end = find_host_end(v, start, b);
    assert(v@.subrange(start as int, b as int).take(end - start) =~= v@.subrange(start as int, end as int));
    if end == start || !contains_char(v, start, end, '.') {
        return;
    }
    let host = string_of(v, start, end);
    let lower = to_lowercase(host.as_str());
    let ghost before = hosts@;
    hosts.push(lower);
    assert(string_views(hosts@) =~= string_views(before).push(lower@));
}

/// The lower-cased host of every `https://` or `http://` URL token of an
/// `Exec=` line, in order.
pub fn extract_hosts_from_exec(exec: &str) -> (hosts: Vec<String>)
    ensures
        string_views(hosts@) == hosts_in(tokens(exec@)),
{
    let v = chars_of(exec);
    let mut hosts: Vec<String> = Vec::new();
    let mut tok_start: usize = 0;
    let mut i: usize = 0;
    assert(v@.take(0) =~= Seq::<char>::empty());
    assert(string_views(hosts@) =~= Seq::<Seq<char>>::empty());
    while i < v.len()
        invariant
            0 <= tok_start <= i <= v@.len(),
            v@ == exec@,
            string_views(hosts@) == hosts_in(scan_tokens(v@.take(i as int)).0),
            scan_tokens(v@.take(i as int)).1 == v@.subrange(tok_start as int, i as int),
        decreases v.len() - i,
    {
        assert(v@.take(i + 1).drop_last() =~= v@.take(i as int));
        if is_whitespace(v[i]) {
            if tok_start < i {
                let ghost ts = scan_tokens(v@.take(i as int)).0;
                let ghost cur = v@.subrange(tok_start as int, i as int);
                push_token_host(&v, tok_start, i, &mut hosts);
                assert(ts.push(cur).drop_last() =~= ts);
            }
            tok_start = i + 1;
            assert(v@.subrange(tok_start as int, i + 1) =~= Seq::<char>::empty());
        } else {
            assert(v@.subrange(tok_start as int, i + 1) =~= v@.subrange(tok_start as int, i as int).push(v@[i as int]));
        }
        i += 1;
    }
    assert(v@.take(v.len() as int) =~= v@);
    if tok_start < v.len() {
        let ghost ts = scan_tokens(v@).0;
        let ghost cur = v@.subrange(tok_start as int, v.len() as int);
        push_token_host(&v, tok_start, v.len(), &mut hosts);
        assert(ts.push(cur).drop_last() =~= ts);
    }
    hosts
}

/// Index of the first `__` in `s`.
pub open spec fn first_double_underscore(s: Seq<char>) -> Option<int>
    decreases s.len(),
{
    if s.len() < 2 {
        None
    } else if s[0] == '_' && s[1] == '_' {
        Some(0)
    } else {
        match first_double_underscore(s.drop_first()) {
            None => None,
            Some(i) => Some(i + 1),
        }
    }
}

pub open spec fn ends_with(s: Seq<char>, suffix: Seq<char>) -> bool {
    s.len() >= suffix.len() && s.skip(s.len() - suffix.len()) == suffix
}

/// `s` without the first of the known browser-profile suffixes it ends with.
pub open spec fn strip_profile_suffix(s: Seq<char>) -> Option<Seq<char>> {
    if ends_with(s, "-default"@) {
        Some(s.take(s.len() - 8))
    } else if ends_with(s, "-profile_1"@) {
        Some(s.take(s.len() - 10))
    } else if ends_with(s, "-profile_2"@) {
        Some(s.take(s.len() - 10))
    } else if ends_with(s, "-profile_3"@) {
        Some(s.take(s.len() - 10))
    } else if ends_with(s, "-profile_4"@) {
        Some(s.take(s.len() - 10))
    } else {
        None
    }
}

/// The web host a Chrome `--app=URL` window class was derived from: after the
/// `chrome-` prefix, everything before the first `__`, or, without `__`, the
/// rest without a known profile suffix; the host must be non-empty and hold a dot.
pub open spec fn spec_chrome_pwa_host(class: Seq<char>) -> Option<Seq<char>> {
    if !(class.len() >= 7 && class.take(7) == "chrome-"@) {
        None
    } else {
        let after = class.skip(7);
        let host = match first_double_underscore(after) {
            Some(i) => Some(after.take(i)),
            None => strip_profile_suffix(after),
        };
        match host {
            None => None,
            Some(h) => if h.len() == 0 || !h.contains('.') {
                None
            } else {
                Some(h)
            },
        }
    }
}

fn find_double_underscore(v: &Vec<char>, lo: usize) -> (r: Option<usize>)
    requires
        lo <= v@.len(),
    ensures
        match r {
            None => first_double_underscore(v@.skip(lo as int)) is None,
            Some(k) => first_double_underscore(v@.skip(lo as int)) == Some(k as int) && lo + k <= v@.len(),
        },
{
    let ghost s = v@.skip(lo as int);
    let mut i = lo;
    assert(s.skip(0) =~= s);
    while i < v.len() && i + 1 < v.len()
        invariant
            lo <= i <= v@.len(),
            s == v@.skip(lo as int),
            first_double_underscore(s) == match first_double_underscore(v@.skip(i as int)) {
                None => None,
                Some(k) => Some(k + (i - lo)),
            },
        decreases v.len() - i,
    {
        assert(v@.skip(i as int)[0] == v@[i as int] && v@.skip(i as int)[1] == v@[i + 1]);
        if v[i] == '_' && v[i + 1] == '_' {
            return Some(i - lo);
        }
        assert(v@.skip(i as int).drop_first() =~= v@.skip(i + 1));
        i += 1;
    }
    None
}

/// The Chrome `--app=URL` host of a lower-cased window class, such as
/// `discord.com` for `chrome-discord.com__channels_@me-default`.
pub fn parse_chrome_pwa_host(class_lowercased: &str) -> (r: Option<&str>)
    ensures
        match r {
            None => spec_chrome_pwa_host(class_lowercased@) is None,
            Some(h) => spec_chrome_pwa_host(class_lowercased@) == Some(h@),
        },
{
    let v = chars_of(class_lowercased);
    let n = v.len();
    if !(n >= 7 && slice_eq(&v, 0, 7, "chrome-")) {
        proof {
            if n >= 7 {
                assert(v@.take(7) =~= v@.subrange(0, 7));
            }
        }
        return None;
    }
    assert(v@.take(7) =~= v@.subrange(0, 7));
    let ghost after = v@.skip(7);
    let (lo, hi) = match find_double_underscore(&v, 7) {
        Some(k) => {
            assert(after.take(k as int) =~= v@.subrange(7, 7 + k));
            (7, 7 + k)
        },
        None => {
            let mut end: Option<usize> = None;
            proof {
                reveal_strlit("-default");
                reveal_strlit("-profile_1");
                reveal_strlit("-profile_2");
                reveal_strlit("-profile_3");
                reveal_strlit("-profile_4");
            }
            if n - 7 >= 8 && slice_eq(&v, n - 8, n, "-default") {
                assert(after.skip(after.len() - 8) =~= v@.subrange(n - 8, n as int));
                end = Some(n - 8);
            } else if n - 7 >= 10 && slice_eq(&v, n - 10, n, "-profile_1") {
                assert(after.skip(after.len() - 10) =~= v@.subrange(n - 10, n as int));
                end = Some(n - 10);
            } else if n - 7 >= 10 && slice_eq(&v, n - 10, n, "-profile_2") {
                assert(after.skip(after.len() - 10) =~= v@.subrange(n - 10, n as int));
                end = Some(n - 10);
            } else if n - 7 >= 10 && slice_eq(&v, n - 10, n, "-profile_3") {
                assert(after.skip(after.len() - 10) =~= v@.subrange(n - 10, n as int));
                end = Some(n - 10);
            } else if n - 7 >= 10 && slice_eq(&v, n - 10, n, "-profile_4") {
                assert(after.skip(after.len() - 10) =~= v@.subrange(n - 10, n as int));
                end = Some(n - 10);
            }
            proof {
                if after.len() >= 8 {
                    assert(after.skip(after.len() - 8) =~= v@.subrange(n - 8, n as int));
                }
                if after.len() >= 10 {
                    assert(after.skip(after.len() - 10) =~= v@.subrange(n - 10, n as int));
                }
            }
            match end {
                None => return None,
                Some(e) => {
                    assert(after.take(e - 7) =~= v@.subrange(7, e as int));
                    (7, e)
                },
            }
        },
    };
    if lo == hi || !contains_char(&v, lo, hi, '.') {
        return None;
    }
    Some(class_lowercased.substring_char(lo, hi))
}

/// `m` with `k` mapped to `v` unless `k` is mapped already.
pub open spec fn insert_if_absent(m: Map<Seq<char>, DesktopAppMetadata>, k: Seq<char>, v: DesktopAppMetadata) -> Map<Seq<char>, DesktopAppMetadata> {
    if m.contains_key(k) {
        m
    } else {
        m.insert(k, v)
    }
}

/// `m` with each of `keys` mapped to `v` where not mapped already, in order.
pub open spec fn insert_all_if_absent(m: Map<Seq<char>, DesktopAppMetadata>, keys: Seq<Seq<char>>, v: DesktopAppMetadata) -> Map<Seq<char>, DesktopAppMetadata>
    decreases keys.len(),
{
    if keys.len() == 0 {
        m
    } else {
        insert_if_absent(insert_all_if_absent(m, keys.drop_last(), v), keys.last(), v)
    }
}

/// A present, non-empty value.
pub open spec fn non_empty(o: Option<Seq<char>>) -> Option<Seq<char>> {
    match o {
        Some(s) => if s.len() > 0 {
            Some(s)
        } else {
            None
        },
        None => None,
    }
}

/// Two indices over the installed applications: by lower-cased `.desktop`
/// file stem and `StartupWMClass`, and by lower-cased web host of the URLs in
/// each entry's `Exec=` line.
pub struct AppDirectory {
    pub by_identifier: StringHashMap<DesktopAppMetadata>,
    pub by_webapp_host: StringHashMap<DesktopAppMetadata>,
}

impl AppDirectory {
    /// What `lookup` returns for `identifier`: the direct entry for its lower-cased
    /// form, else the entry of the web host of that form read as a Chrome app class.
    pub open spec fn spec_lookup(self, identifier: Seq<char>) -> Option<DesktopAppMetadata> {
        let lower = lowercase(identifier);
        if self.by_identifier@.contains_key(lower) {
            Some(self.by_identifier@[lower])
        } else {
            match spec_chrome_pwa_host(lower) {
                Some(h) => if self.by_webapp_host@.contains_key(h) {
                    Some(self.by_webapp_host@[h])
                } else {
                    None
                },
                None => None,
            }
        }
    }

    /// An empty directory.
    pub fn new() -> (r: AppDirectory)
        ensures
            r.by_identifier@ == Map::<Seq<char>, DesktopAppMetadata>::empty(),
            r.by_webapp_host@ == Map::<Seq<char>, DesktopAppMetadata>::empty(),
    {
        AppDirectory { by_identifier: StringHashMap::new(), by_webapp_host: StringHashMap::new() }
    }

    /// Map the identifier `key` to `metadata` in the direct index.
    pub fn insert_identifier(&mut self, key: String, metadata: DesktopAppMetadata)
        ensures
            final(self).by_identifier@ == old(self).by_identifier@.insert(key@, metadata),
            final(self).by_webapp_host@ == old(self).by_webapp_host@,
    {
        self.by_identifier.insert(key, metadata);
    }

    /// Map the web host `key` to `metadata` in the web-app index.
    pub fn insert_webapp_host(&mut self, key: String, metadata: DesktopAppMetadata)
        ensures
            final(self).by_webapp_host@ == old(self).by_webapp_host@.insert(key@, metadata),
            final(self).by_identifier@ == old(self).by_identifier@,
    {
        self.by_webapp_host.insert(key, metadata);
    }

    /// Resolve a runtime class / app_id to its installed metadata: the direct
    /// index first, then the Chrome `--app=` web host of the class.
    pub fn lookup(&self, identifier: &str) -> (r: Option<DesktopAppMetadata>)
        ensures
            r == self.spec_lookup(identifier@),
    {
        let lower = to_lowercase(identifier);
        if let Some(m) = self.by_identifier.get(lower.as_str()) {
            return Some(m.clone());
        }
        if let Some(host) = parse_chrome_pwa_host(lower.as_str()) {
            if let Some(m) = self.by_webapp_host.get(host) {
                return Some(m.clone());
            }
        }
        None
    }

    /// Index the `.desktop` file with file stem `stem` and text `contents`: an
    /// application entry is recorded, where not recorded already, under its
    /// lower-cased stem, its lower-cased non-empty `StartupWMClass`, and every
    /// web host of its `Exec=` line. Its display name is the non-empty `Name=`
    /// or else the stem; its icon the non-empty `Icon=`.
    pub fn index_entry(&mut self, stem: &str, contents: &str)
        ensures
            match spec_parse_desktop_entry(contents@) {
                None => final(self).by_identifier@ == old(self).by_identifier@ && final(self).by_webapp_host@
                    == old(self).by_webapp_host@,
                Some(e) => exists|m: DesktopAppMetadata|
                    #[trigger] entry_recorded(*old(self), *final(self), stem@, e, m),
            },
    {
        let parsed = match parse_desktop_entry(contents) {
            Some(p) => p,
            None => return,
        };
        let ghost e = spec_parse_desktop_entry(contents@)->0;
        let display_name = match parsed.name {
            Some(n) => if n.as_str().unicode_len() > 0 {
                n
            } else {
                String::from_str(stem)
            },
            None => String::from_str(stem),
        };
        let icon_name = match parsed.icon {
            Some(i) => if i.as_str().unicode_len() > 0 {
                Some(i)
            } else {
                None
            },
            None => None,
        };
        let metadata = DesktopAppMetadata { display_name, icon_name };
        assert(metadata.display_name@ == match non_empty(e.name) {
            Some(n) => n,
            None => stem@,
        });
        assert(opt_view(metadata.icon_name) == non_empty(e.icon));
        let ghost ids0 = self.by_identifier@;
        let ghost hosts0 = self.by_webapp_host@;
        let key = to_lowercase(stem);
        if !self.by_identifier.contains_key(key.as_str()) {
            self.by_identifier.insert(key, metadata.clone());
        }
        assert(self.by_identifier@ == insert_if_absent(ids0, lowercase(stem@), metadata));
        if let Some(wm_class) = parsed.startup_wm_class {
            if wm_class.as_str().unicode_len() > 0 {
                let key = to_lowercase(wm_class.as_str());
                if !self.by_identifier.contains_key(key.as_str()) {
                    self.by_identifier.insert(key, metadata.clone());
                }
            }
        }
        assert(self.by_identifier@ == indexed_identifiers(ids0, stem@, e, metadata));
        if let Some(exec) = parsed.exec_command {
            let hosts = extract_hosts_from_exec(exec.as_str());
            let ghost keys = string_views(hosts@);
            let mut i: usize = 0;
            assert(keys.take(0) =~= Seq::<Seq<char>>::empty());
            while i < hosts.len()
                invariant
                    0 <= i <= hosts@.len(),
                    keys == string_views(hosts@),
                    self.by_webapp_host@ == insert_all_if_absent(hosts0, keys.take(i as int), metadata),
                    self.by_identifier@ == indexed_identifiers(ids0, stem@, e, metadata),
                decreases hosts.len() - i,
            {
                assert(keys.take(i + 1).drop_last() =~= keys.take(i as int));
                let host = hosts[i].clone();
                if !self.by_webapp_host.contains_key(host.as_str()) {
                    self.by_webapp_host.insert(host, metadata.clone());
                }
                i += 1;
            }
            assert(keys.take(hosts.len() as int) =~= keys);
        }
        assert(self.by_webapp_host@ == indexed_hosts(hosts0, e, metadata));
        assert(entry_recorded(*old(self), *self, stem@, e, metadata));
    }
}

/// After recording the entry `e` with file stem `stem` as `m`, `after` holds
/// what `before` held plus `m` under each new key, with `m` named and iconed as
/// the entry says.
pub open spec fn entry_recorded(before: AppDirectory, after: AppDirectory, stem: Seq<char>, e: EntryScan, m: DesktopAppMetadata) -> bool {
    &&& m.display_name@ == match non_empty(e.name) {
        Some(n) => n,
        None => stem,
    }
    &&& opt_view(m.icon_name) == non_empty(e.icon)
    &&& after.by_identifier@ == indexed_identifiers(before.by_identifier@, stem, e, m)
    &&& after.by_webapp_host@ == indexed_hosts(before.by_webapp_host@, e, m)
}

/// The direct index after recording `m` for the entry `e` with file stem `stem`.
pub open spec fn indexed_identifiers(ids: Map<Seq<char>, DesktopAppMetadata>, stem: Seq<char>, e: EntryScan, m: DesktopAppMetadata) -> Map<Seq<char>, DesktopAppMetadata> {
    let by_stem = insert_if_absent(ids, lowercase(stem), m);
    match non_empty(e.startup_wm_class) {
        Some(w) => insert_if_absent(by_stem, lowercase(w), m),
        None => by_stem,
    }
}

/// The web-host index after recording `m` for the entry `e`.
pub open spec fn indexed_hosts(hosts: Map<Seq<char>, DesktopAppMetadata>, e: EntryScan, m: DesktopAppMetadata) -> Map<Seq<char>, DesktopAppMetadata> {
    match e.exec_command {
        Some(x) => insert_all_if_absent(hosts, hosts_in(tokens(x)), m),
        None => hosts,
    }
}
} // verus!
