//! Identifying the frontmost application on the desktop, from what window
//! managers report of their windows.
use vstd::hash_map::StringHashMap;
use vstd::prelude::*;

use crate::desktop::AppDirectory;
use crate::text::{
    lemma_lex_order, lex_lt, str_eq, str_lt, eq_ignore_ascii_case, slice_eq_ignore_ascii_case, string_views, lowercase, to_lowercase, trim, trim_bounds,
    chars_of, string_of,
};

verus! {

/// A node of a sway / i3 layout tree, with what the lookup reads of it:
/// whether it has focus, its Wayland `app_id`, the X11 class of its window
/// (`window_properties.class`), and its tiled and floating children.
#[derive(Debug)]
pub struct SwayNode {
    pub focused: bool,
    pub app_id: Option<String>,
    pub class: Option<String>,
    pub nodes: Vec<SwayNode>,
    pub floating_nodes: Vec<SwayNode>,
}

pub open spec fn non_empty_text(o: Option<String>) -> Option<Seq<char>> {
    match o {
        Some(s) => if s@.len() > 0 {
            Some(s@)
        } else {
            None
        },
        None => None,
    }
}

/// What a focused node itself names: its non-empty `app_id`, else its
/// non-empty window class.
pub open spec fn own_focused_id(n: SwayNode) -> Option<Seq<char>> {
    if n.focused {
        match non_empty_text(n.app_id) {
            Some(a) => Some(a),
            None => non_empty_text(n.class),
        }
    } else {
        None
    }
}

/// The identifier of the first focused node in depth-first order below and
/// at `n`: the node itself, then its tiled children, then its floating ones.
pub open spec fn focused_app_id(n: SwayNode) -> Option<Seq<char>>
    decreases n, 3nat, 0nat,
{
    match own_focused_id(n) {
        Some(a) => Some(a),
        None => match focused_among(n, false, 0) {
            Some(a) => Some(a),
            None => focused_among(n, true, 0),
        },
    }
}

/// The first found among the tiled (or floating) children of `n` from `i` on.
pub open spec fn focused_among(n: SwayNode, floating: bool, i: nat) -> Option<Seq<char>>
    decreases n, (if floating { 1nat } else { 2nat }), (if floating { n.floating_nodes@.len() } else { n.nodes@.len() }) - i,
{
    let children = if floating {
        n.floating_nodes@
    } else {
        n.nodes@
    };
    if i >= children.len() {
        None
    } else {
        match focused_app_id(children[i as int]) {
            Some(a) => Some(a),
            None => focused_among(n, floating, i + 1),
        }
    }
}

pub open spec fn opt_text(o: Option<String>) -> Option<Seq<char>> {
    match o {
        Some(s) => Some(s@),
        None => None,
    }
}

fn non_empty_clone(o: &Option<String>) -> (r: Option<String>)
    ensures
        opt_text(r) == non_empty_text(*o),
{
    match o {
        Some(s) => if s.as_str().unicode_len() > 0 {
            Some(s.clone())
        } else {
            None
        },
        None => None,
    }
}

/// Walk a sway / i3 layout tree depth-first for the focused node with a
/// non-empty `app_id` (Wayland clients) or window class (XWayland).
pub fn find_focused_app_id(node: &SwayNode) -> (r: Option<String>)
    ensures
        opt_text(r) == focused_app_id(*node),
    decreases *node, 1nat,
{
    if node.focused {
        let a = non_empty_clone(&node.app_id);
        if a.is_some() {
            return a;
        }
        let c = non_empty_clone(&node.class);
        if c.is_some() {
            return c;
        }
    }
    let tiled = find_focused_among(node, false);
    if tiled.is_some() {
        return tiled;
    }
    find_focused_among(node, true)
}

fn find_focused_among(node: &SwayNode, floating: bool) -> (r: Option<String>)
    ensures
        opt_text(r) == focused_among(*node, floating, 0),
    decreases *node, 0nat,
{
    let children = if floating {
        &node.floating_nodes
    } else {
        &node.nodes
    };
    let mut i: usize = 0;
    while i < children.len()
        invariant
            0 <= i <= children@.len(),
            children@ == if floating {
                node.floating_nodes@
            } else {
                node.nodes@
            },
            focused_among(*node, floating, 0) == focused_among(*node, floating, i as nat),
        decreases children.len() - i,
    {
        assert(decreases_to!(*node => children@[i as int]));
        let found = find_focused_app_id(&children[i]);
        if found.is_some() {
            return found;
        }
        i += 1;
    }
    None
}

/// The non-empty `app_id` and window class of a node, in that order.
pub open spec fn own_ids(n: SwayNode) -> Seq<Seq<char>> {
    (match non_empty_text(n.app_id) {
        Some(a) => seq![a],
        None => Seq::empty(),
    }) + (match non_empty_text(n.class) {
        Some(c) => seq![c],
        None => Seq::empty(),
    })
}

/// The identifiers of every node of the tree below and at `n`, depth-first.
pub open spec fn app_ids(n: SwayNode) -> Seq<Seq<char>>
    decreases n, 3nat, 0nat,
{
    own_ids(n) + ids_among(n, false, 0) + ids_among(n, true, 0)
}

/// The identifiers below the tiled (or floating) children of `n` from `i` on.
pub open spec fn ids_among(n: SwayNode, floating: bool, i: nat) -> Seq<Seq<char>>
    decreases n, (if floating { 1nat } else { 2nat }), (if floating { n.floating_nodes@.len() } else { n.nodes@.len() }) - i,
{
    let children = if floating {
        n.floating_nodes@
    } else {
        n.nodes@
    };
    if i >= children.len() {
        Seq::empty()
    } else {
        app_ids(children[i as int]) + ids_among(n, floating, i + 1)
    }
}

/// Append the identifiers of every node of the tree at `node`, depth-first.
pub fn collect_app_ids(node: &SwayNode, acc: &mut Vec<String>)
    ensures
        string_views(final(acc)@) == string_views(old(acc)@) + app_ids(*node),
    decreases *node, 1nat,
{
    let ghost start = string_views(acc@);
    if let Some(a) = non_empty_clone(&node.app_id) {
        acc.push(a);
    }
    if let Some(c) = non_empty_clone(&node.class) {
        acc.push(c);
    }
    assert(string_views(acc@) =~= start + own_ids(*node));
    collect_among(node, false, acc);
    collect_among(node, true, acc);
    assert(string_views(acc@) =~= start + app_ids(*node));
}

fn collect_among(node: &SwayNode, floating: bool, acc: &mut Vec<String>)
    ensures
        string_views(final(acc)@) == string_views(old(acc)@) + ids_among(*node, floating, 0),
    decreases *node, 0nat,
{
    let ghost start = string_views(acc@);
    let children = if floating {
        &node.floating_nodes
    } else {
        &node.nodes
    };
    let mut i: usize = 0;
    assert(start + Seq::<Seq<char>>::empty() =~= start);
    while i < children.len()
        invariant
            0 <= i <= children@.len(),
            children@ == if floating {
                node.floating_nodes@
            } else {
                node.nodes@
            },
            start + ids_among(*node, floating, 0) == string_views(acc@) + ids_among(*node, floating, i as nat),
        decreases children.len() - i,
    {
        assert(decreases_to!(*node => children@[i as int]));
        let ghost before = string_views(acc@);
        collect_app_ids(&children[i], acc);
        assert(before + ids_among(*node, floating, i as nat) =~= string_views(acc@) + ids_among(
            *node,
            floating,
            (i + 1) as nat,
        ));
        i += 1;
    }
    assert(string_views(acc@) + ids_among(*node, floating, i as nat) =~= string_views(acc@));
}

/// What Hyprland reports of a client: the class its toplevel registered
/// with, and its current class.
#[derive(Debug)]
pub struct HyprClient {
    pub initial_class: Option<String>,
    pub class: Option<String>,
}

/// The class a Hyprland client is known by: the registered one where it
/// has one, so that a renamed window keeps its identity, else the current.
pub open spec fn client_class(c: HyprClient) -> Option<Seq<char>> {
    match c.initial_class {
        Some(s) => Some(s@),
        None => opt_text(c.class),
    }
}

fn client_class_of(c: &HyprClient) -> (r: Option<String>)
    ensures
        opt_text(r) == client_class(*c),
{
    match &c.initial_class {
        Some(s) => Some(s.clone()),
        None => match &c.class {
            Some(s) => Some(s.clone()),
            None => None,
        },
    }
}

/// The class of Hyprland's active window, trimmed; none when it is blank.
pub fn hyprland_active_class(active: &HyprClient) -> (r: Option<String>)
    ensures
        opt_text(r) == match client_class(*active) {
            Some(c) => if trim(c).len() > 0 {
                Some(trim(c))
            } else {
                None
            },
            None => None,
        },
{
    let class = match client_class_of(active) {
        Some(c) => c,
        None => return None,
    };
    let v = chars_of(class.as_str());
    let (lo, hi) = trim_bounds(&v, 0, v.len());
    assert(v@.subrange(0, v@.len() as int) =~= v@);
    if lo == hi {
        return None;
    }
    Some(string_of(&v, lo, hi))
}

/// The class of every Hyprland client, in order.
pub fn hyprland_client_classes(clients: &[HyprClient]) -> (r: Vec<String>)
    ensures
        string_views(r@) == clients@.filter_map(|c: HyprClient| client_class(c)),
{
    let ghost f = |c: HyprClient| client_class(c);
    let mut r: Vec<String> = Vec::new();
    let mut i: usize = 0;
    assert(clients@.take(0).filter_map(f) =~= Seq::<Seq<char>>::empty());
    assert(string_views(r@) =~= Seq::<Seq<char>>::empty());
    while i < clients.len()
        invariant
            0 <= i <= clients@.len(),
            f == (|c: HyprClient| client_class(c)),
            string_views(r@) == clients@.take(i as int).filter_map(f),
        decreases clients.len() - i,
    {
        proof {
            lemma_filter_map_push(clients@.take(i as int), f, clients@[i as int]);
            assert(clients@.take(i + 1) =~= clients@.take(i as int).push(clients@[i as int]));
        }
        let ghost before = r@;
        match client_class_of(&clients[i]) {
            Some(c) => {
                r.push(c);
                assert(string_views(r@) =~= string_views(before).push(r@[r@.len() - 1]@));
            },
            None => {},
        }
        i += 1;
    }
    assert(clients@.take(clients.len() as int) =~= clients@);
    r
}

proof fn lemma_filter_map_push(s: Seq<HyprClient>, f: spec_fn(HyprClient) -> Option<Seq<char>>, x: HyprClient)
    ensures
        s.push(x).filter_map(f) == match f(x) {
            Some(y) => s.filter_map(f).push(y),
            None => s.filter_map(f),
        },
{
    reveal(Seq::filter_map);
    assert(s.push(x).drop_last() =~= s);
}

/// The parts of `raw` between NUL bytes, empty ones left out, and the part
/// not yet ended by a NUL.
pub open spec fn scan_nul_parts(raw: Seq<u8>) -> (Seq<Seq<u8>>, Seq<u8>)
    decreases raw.len(),
{
    if raw.len() == 0 {
        (Seq::empty(), Seq::empty())
    } else {
        let (parts, cur) = scan_nul_parts(raw.drop_last());
        if raw.last() == 0 {
            if cur.len() > 0 {
                (parts.push(cur), Seq::empty())
            } else {
                (parts, Seq::empty())
            }
        } else {
            (parts, cur.push(raw.last()))
        }
    }
}

/// The non-empty NUL-separated parts of `raw`, in order.
pub open spec fn nul_parts(raw: Seq<u8>) -> Seq<Seq<u8>> {
    let (parts, cur) = scan_nul_parts(raw);
    if cur.len() > 0 {
        parts.push(cur)
    } else {
        parts
    }
}

/// The class named by an X11 `WM_CLASS` value, two NUL-separated strings
/// (instance, class): the second non-empty part, or the only one.
pub open spec fn spec_wm_class(raw: Seq<u8>) -> Option<Seq<u8>> {
    let parts = nul_parts(raw);
    if parts.len() >= 2 {
        Some(parts[1])
    } else if parts.len() == 1 {
        Some(parts[0])
    } else {
        None
    }
}

/// The bytes of the class named by a `WM_CLASS` property value.
pub fn wm_class(raw: &[u8]) -> (r: Option<Vec<u8>>)
    ensures
        match r {
            Some(v) => spec_wm_class(raw@) == Some(v@),
            None => spec_wm_class(raw@) is None,
        },
{
    let mut parts: Vec<Vec<u8>> = Vec::new();
    let mut cur: Vec<u8> = Vec::new();
    let mut i: usize = 0;
    assert(raw@.take(0) =~= Seq::<u8>::empty());
    while i < raw.len()
        invariant
            0 <= i <= raw@.len(),
            parts@.len() == scan_nul_parts(raw@.take(i as int)).0.len(),
            forall|k: int| 0 <= k < parts@.len() ==> (#[trigger] parts@[k])@ == scan_nul_parts(raw@.take(i as int)).0[k],
            cur@ == scan_nul_parts(raw@.take(i as int)).1,
        decreases raw.len() - i,
    {
        assert(raw@.take(i + 1).drop_last() =~= raw@.take(i as int));
        if raw[i] == 0 {
            if cur.len() > 0 {
                let done = cur;
                cur = Vec::new();
                parts.push(done);
            } else {
                cur = Vec::new();
            }
        } else {
            cur.push(raw[i]);
        }
        i += 1;
    }
    assert(raw@.take(raw.len() as int) =~= raw@);
    if cur.len() > 0 {
        parts.push(cur);
    }
    let ghost ps = nul_parts(raw@);
    assert(parts@.len() == ps.len());
    if parts.len() >= 2 {
        let c = parts[1].clone();
        assert(c@ =~= parts@[1]@);
        Some(c)
    } else if parts.len() == 1 {
        let c = parts[0].clone();
        assert(c@ =~= parts@[0]@);
        Some(c)
    } else {
        None
    }
}

/// Whether a session is a Wayland session, given the value of
/// `WAYLAND_DISPLAY`: set and not empty.
pub fn is_wayland(wayland_display: Option<&str>) -> (r: bool)
    ensures
        r == match wayland_display {
            Some(v) => v@.len() > 0,
            None => false,
        },
{
    match wayland_display {
        Some(v) => v.unicode_len() > 0,
        None => false,
    }
}

/// A running application as the picker lists it: its display name, the
/// identifier the suppression check uses, and its icon's name, if known.
#[derive(Debug)]
pub struct RunningAppInfo {
    pub display_name: String,
    pub identifier: String,
    pub icon_name: Option<String>,
}

/// Describe the runtime identifier `raw` with what the installed `.desktop`
/// entries say of it; the identifier is lower-cased, as the suppression list
/// stores it. An unknown application keeps `raw` as its display name.
pub fn build_running_app(directory: &AppDirectory, raw: &str) -> (r: RunningAppInfo)
    ensures
        info_view(r) == running_app_view(*directory, raw@),
        r.identifier@ == lowercase(raw@),
        match directory.spec_lookup(lowercase(raw@)) {
            Some(m) => r.display_name@ == m.display_name@ && opt_text(r.icon_name) == opt_text(m.icon_name),
            None => r.display_name@ == raw@ && r.icon_name is None,
        },
{
    let lower = to_lowercase(raw);
    match directory.lookup(lower.as_str()) {
        Some(meta) => RunningAppInfo { display_name: meta.display_name, identifier: lower, icon_name: meta.icon_name },
        None => RunningAppInfo { display_name: String::from_str(raw), identifier: lower, icon_name: None },
    }
}

/// Whether looking up `identifier` found installed metadata: a display
/// name other than the identifier (up to ASCII case), or an icon.
pub fn metadata_found(display_name: &str, identifier: &str, has_icon: bool) -> (r: bool)
    ensures
        r == !(eq_ignore_ascii_case(display_name@, identifier@) && !has_icon),
{
    let v = chars_of(display_name);
    assert(v@.subrange(0, v@.len() as int) =~= v@);
    !(slice_eq_ignore_ascii_case(&v, 0, v.len(), identifier) && !has_icon)
}

/// PNG icons of applications, by bundle identifier, encoded once.
pub struct IconCache {
    icons: StringHashMap<Option<Vec<u8>>>,
}

pub open spec fn opt_bytes(o: Option<Vec<u8>>) -> Option<Seq<u8>> {
    match o {
        Some(v) => Some(v@),
        None => None,
    }
}

impl IconCache {
    /// The icon recorded for each bundle identifier; none recorded when an
    /// icon could not be encoded.
    pub closed spec fn icons(self) -> Map<Seq<char>, Option<Seq<u8>>> {
        self.icons@.map_values(|o: Option<Vec<u8>>| opt_bytes(o))
    }

    pub fn new() -> (r: IconCache)
        ensures
            r.icons() == Map::<Seq<char>, Option<Seq<u8>>>::empty(),
    {
        let r = IconCache { icons: StringHashMap::new() };
        assert(r.icons() =~= Map::<Seq<char>, Option<Seq<u8>>>::empty());
        r
    }

    /// What is recorded for `bundle_id`, if anything: the outer `None`
    /// means the icon must be encoded.
    pub fn cached_icon(&self, bundle_id: &str) -> (r: Option<Option<Vec<u8>>>)
        ensures
            match r {
                Some(o) => self.icons().contains_key(bundle_id@) && opt_bytes(o) == self.icons()[bundle_id@],
                None => !self.icons().contains_key(bundle_id@),
            },
    {
        match self.icons.get(bundle_id) {
            Some(o) => {
                let c = match o {
                    Some(v) => {
                        let w = v.clone();
                        assert(w@ =~= v@);
                        Some(w)
                    },
                    None => None,
                };
                Some(c)
            },
            None => None,
        }
    }

    /// Record the encoded icon (or its absence) of `bundle_id`.
    pub fn store_icon(&mut self, bundle_id: String, png: Option<Vec<u8>>)
        ensures
            final(self).icons() == old(self).icons().insert(bundle_id@, opt_bytes(png)),
    {
        let ghost k = bundle_id@;
        let ghost p = png;
        self.icons.insert(bundle_id, png);
        assert(final(self).icons() =~= old(self).icons().insert(k, opt_bytes(p)));
    }
}

/// An application as the clipboard suppression list names it, per
/// platform: a macOS bundle identifier, a Windows executable name, or the
/// lower-cased window class of a Wayland or X11 session.
#[derive(Debug, PartialEq, Eq)]
pub enum AppIdent {
    MacBundle(String),
    WindowsExe(String),
    LinuxWayland(String),
    LinuxX11(String),
}

/// An application identifier, with its name taken by its text.
pub enum AppIdentModel {
    MacBundle(Seq<char>),
    WindowsExe(Seq<char>),
    LinuxWayland(Seq<char>),
    LinuxX11(Seq<char>),
}

impl View for AppIdent {
    type V = AppIdentModel;

    open spec fn view(&self) -> AppIdentModel {
        match self {
            AppIdent::MacBundle(s) => AppIdentModel::MacBundle(s@),
            AppIdent::WindowsExe(s) => AppIdentModel::WindowsExe(s@),
            AppIdent::LinuxWayland(s) => AppIdentModel::LinuxWayland(s@),
            AppIdent::LinuxX11(s) => AppIdentModel::LinuxX11(s@),
        }
    }
}

/// The identifier of the frontmost application of a Linux session, from
/// the class (or app id) of its active window: lower-cased, and tagged
/// Wayland or X11 as the session is.
pub fn linux_app_ident(wayland: bool, active: &str) -> (r: AppIdent)
    ensures
        r@ == if wayland {
            AppIdentModel::LinuxWayland(lowercase(active@))
        } else {
            AppIdentModel::LinuxX11(lowercase(active@))
        },
{
    let lower = to_lowercase(active);
    if wayland {
        AppIdent::LinuxWayland(lower)
    } else {
        AppIdent::LinuxX11(lower)
    }
}

/// What the picker shows of a running application: display name,
/// identifier and icon name.
pub open spec fn info_view(a: RunningAppInfo) -> (Seq<char>, Seq<char>, Option<Seq<char>>) {
    (a.display_name@, a.identifier@, opt_text(a.icon_name))
}

/// What `build_running_app` makes of the runtime identifier `raw`.
pub open spec fn running_app_view(directory: AppDirectory, raw: Seq<char>) -> (Seq<char>, Seq<char>, Option<Seq<char>>) {
    match directory.spec_lookup(lowercase(raw)) {
        Some(m) => (m.display_name@, lowercase(raw), opt_text(m.icon_name)),
        None => (raw, lowercase(raw), None),
    }
}

/// Strictly ascending in the order of `str`: sorted, without repeats.
pub open spec fn lex_sorted(s: Seq<Seq<char>>) -> bool {
    forall|i: int, j: int| 0 <= i < j < s.len() ==> lex_lt(#[trigger] s[i], #[trigger] s[j])
}

/// The key by which the picker orders `raw`: its display name, lower-cased.
pub open spec fn display_key(directory: AppDirectory, raw: Seq<char>) -> Seq<char> {
    lowercase(running_app_view(directory, raw).0)
}

/// In a stable sort of `keys`, the entry at `a` comes before the one at
/// `b`: a smaller key, or the same key and an earlier place.
pub open spec fn key_before(keys: Seq<Seq<char>>, a: int, b: int) -> bool {
    lex_lt(keys[a], keys[b]) || (keys[a] == keys[b] && a < b)
}

/// `r` lists the running applications of the runtime identifiers `idents`:
/// `ids` are the distinct identifiers in ascending order, and `r` shows
/// each of them once (`build_running_app`), stably sorted by display name
/// ignoring case: `order` gives the place in `ids` of each entry of `r`.
pub open spec fn lists_running_apps(
    directory: AppDirectory,
    idents: Seq<Seq<char>>,
    r: Seq<RunningAppInfo>,
    ids: Seq<Seq<char>>,
    order: Seq<int>,
) -> bool {
    let keys = Seq::new(ids.len(), |k: int| display_key(directory, ids[k]));
    &&& lex_sorted(ids)
    &&& forall|v: Seq<char>| ids.contains(v) <==> idents.contains(v)
    &&& order.len() == ids.len()
    &&& r.len() == ids.len()
    &&& forall|j: int| 0 <= j < order.len() ==> 0 <= #[trigger] order[j] < ids.len()
    &&& forall|i: int, j: int| 0 <= i < j < order.len() ==> key_before(keys, #[trigger] order[i], #[trigger] order[j])
    &&& forall|j: int| 0 <= j < r.len() ==> info_view(#[trigger] r[j]) == running_app_view(directory, ids[order[j]])
}

fn clone_text(s: &String) -> (r: String)
    ensures
        r@ == s@,
{
    String::from_str(s.as_str())
}

/// The distinct entries of `idents`, in ascending order.
fn sort_dedup(idents: &Vec<String>) -> (r: Vec<String>)
    ensures
        lex_sorted(string_views(r@)),
        forall|v: Seq<char>| string_views(r@).contains(v) <==> string_views(idents@).contains(v),
{
    let mut out: Vec<String> = Vec::new();
    let mut i: usize = 0;
    while i < idents.len()
        invariant
            0 <= i <= idents.len(),
            lex_sorted(string_views(out@)),
            forall|v: Seq<char>| string_views(out@).contains(v) <==> string_views(idents@.take(i as int)).contains(v),
        decreases idents.len() - i,
    {
        let ghost before = string_views(out@);
        let ghost x = idents@[i as int]@;
        assert(string_views(idents@.take(i + 1)) =~= string_views(idents@.take(i as int)).push(x));
        assert forall|v: Seq<char>| #[trigger] string_views(idents@.take(i + 1)).contains(v) <==> (v == x
            || string_views(idents@.take(i as int)).contains(v)) by {
            vstd::seq_lib::lemma_seq_contains_after_push(string_views(idents@.take(i as int)), x, v);
        }
        let mut p: usize = 0;
        while p < out.len() && str_lt(out[p].as_str(), idents[i].as_str())
            invariant
                0 <= p <= out.len(),
                before == string_views(out@),
                x == idents@[i as int]@,
                i < idents.len(),
                forall|k: int| 0 <= k < p ==> lex_lt(#[trigger] before[k], x),
            decreases out.len() - p,
        {
            p += 1;
        }
        if p < out.len() && str_eq(out[p].as_str(), idents[i].as_str()) {
            assert(before[p as int] == x);
            assert forall|v: Seq<char>| before.contains(v) <==> string_views(idents@.take(i + 1)).contains(v) by {
                if v == x {
                    assert(before[p as int] == v);
                }
            }
        } else {
            proof {
                if p < out.len() {
                    lemma_lex_order(x, before[p as int], before[p as int]);
                    lemma_lex_order(before[p as int], x, x);
                }
            }
            let c = clone_text(&idents[i]);
            out.insert(p, c);
            let ghost after = string_views(out@);
            assert(after =~= before.insert(p as int, x));
            assert forall|a: int, b: int| 0 <= a < b < after.len() implies lex_lt(#[trigger] after[a], #[trigger] after[b]) by {
                if b < p {
                    assert(after[a] == before[a] && after[b] == before[b]);
                } else if b == p {
                    assert(after[a] == before[a]);
                } else if a == p {
                    assert(after[b] == before[b - 1]);
                    if b - 1 > p {
                        assert(lex_lt(before[p as int], before[b - 1]));
                        lemma_lex_order(x, before[p as int], before[b - 1]);
                    }
                } else if a < p {
                    assert(after[a] == before[a] && after[b] == before[b - 1]);
                } else {
                    assert(after[a] == before[a - 1] && after[b] == before[b - 1]);
                }
            }
            assert forall|v: Seq<char>| after.contains(v) <==> string_views(idents@.take(i + 1)).contains(v) by {
                if v == x {
                    assert(after[p as int] == v);
                }
                if after.contains(v) {
                    let k = choose|k: int| 0 <= k < after.len() && after[k] == v;
                    if k < p {
                        assert(before[k] == v);
                    } else if k > p {
                        assert(before[k - 1] == v);
                    }
                }
                if before.contains(v) {
                    let k = choose|k: int| 0 <= k < before.len() && before[k] == v;
                    if k < p {
                        assert(after[k] == v);
                    } else {
                        assert(after[k + 1] == v);
                    }
                }
            }
        }
        i += 1;
    }
    assert(idents@.take(idents.len() as int) =~= idents@);
    out
}

/// The places of `keys` in a stable sort: each entry after every entry
/// with a smaller key, and after the earlier ones with the same key.
fn stable_order(keys: &Vec<String>) -> (order: Vec<usize>)
    ensures
        order@.len() == keys@.len(),
        forall|j: int| 0 <= j < order@.len() ==> #[trigger] order@[j] < keys@.len(),
        forall|a: int, b: int|
            0 <= a < b < order@.len() ==> key_before(string_views(keys@), #[trigger] order@[a] as int, #[trigger] order@[b] as int),
{
    let ghost ks = string_views(keys@);
    let mut order: Vec<usize> = Vec::new();
    let mut i: usize = 0;
    while i < keys.len()
        invariant
            0 <= i <= keys.len(),
            ks == string_views(keys@),
            order@.len() == i,
            forall|j: int| 0 <= j < order@.len() ==> #[trigger] order@[j] < i,
            forall|a: int, b: int|
                0 <= a < b < order@.len() ==> key_before(ks, #[trigger] order@[a] as int, #[trigger] order@[b] as int),
        decreases keys.len() - i,
    {
        let ghost before = order@;
        let mut p: usize = 0;
        while p < order.len() && !str_lt(keys[i].as_str(), keys[order[p]].as_str())
            invariant
                0 <= p <= order@.len(),
                before == order@,
                i < keys.len(),
                ks == string_views(keys@),
                forall|j: int| 0 <= j < order@.len() ==> #[trigger] order@[j] < i,
                forall|k: int| 0 <= k < p ==> !lex_lt(ks[i as int], ks[#[trigger] before[k] as int]),
            decreases order.len() - p,
        {
            p += 1;
        }
        order.insert(p, i);
        let ghost after = order@;
        assert(after =~= before.insert(p as int, i));
        assert forall|k: int| 0 <= k < p implies key_before(ks, #[trigger] before[k] as int, i as int) by {
            lemma_lex_order(ks[before[k] as int], ks[i as int], ks[i as int]);
        }
        assert forall|a: int, b: int| 0 <= a < b < after.len() implies key_before(
            ks,
            #[trigger] after[a] as int,
            #[trigger] after[b] as int,
        ) by {
            if b < p {
                assert(after[a] == before[a] && after[b] == before[b]);
            } else if b == p {
                assert(after[a] == before[a]);
            } else if a == p {
                assert(after[b] == before[b - 1]);
                let q = before[p as int] as int;
                assert(lex_lt(ks[i as int], ks[q]));
                if b - 1 > p {
                    assert(key_before(ks, q, before[b - 1] as int));
                    lemma_lex_order(ks[i as int], ks[q], ks[before[b - 1] as int]);
                }
            } else if a < p {
                assert(after[a] == before[a] && after[b] == before[b - 1]);
            } else {
                assert(after[a] == before[a - 1] && after[b] == before[b - 1]);
            }
        }
        i += 1;
    }
    order
}

/// The running applications of the runtime identifiers `idents`: each
/// distinct identifier once, taken in ascending order and described with
/// what the installed entries say of it (`build_running_app`), then sorted
/// by display name ignoring case, keeping that order among equal names.
pub fn running_apps(directory: &AppDirectory, idents: Vec<String>) -> (r: Vec<RunningAppInfo>)
    ensures
        exists|ids: Seq<Seq<char>>, order: Seq<int>|
            #[trigger] lists_running_apps(*directory, string_views(idents@), r@, ids, order),
{
    let ids = sort_dedup(&idents);
    let ghost idv = string_views(ids@);
    let mut keys: Vec<String> = Vec::new();
    let mut k: usize = 0;
    while k < ids.len()
        invariant
            0 <= k <= ids.len(),
            idv == string_views(ids@),
            keys@.len() == k,
            forall|j: int| 0 <= j < k ==> (#[trigger] keys@[j])@ == display_key(*directory, idv[j]),
        decreases ids.len() - k,
    {
        let app = build_running_app(directory, ids[k].as_str());
        keys.push(to_lowercase(app.display_name.as_str()));
        k += 1;
    }
    let order = stable_order(&keys);
    let ghost keyv = Seq::new(idv.len(), |j: int| display_key(*directory, idv[j]));
    assert(string_views(keys@) =~= keyv);
    let mut out: Vec<RunningAppInfo> = Vec::new();
    let mut j: usize = 0;
    while j < order.len()
        invariant
            0 <= j <= order@.len(),
            order@.len() == ids@.len(),
            idv == string_views(ids@),
            forall|m: int| 0 <= m < order@.len() ==> #[trigger] order@[m] < ids@.len(),
            out@.len() == j,
            forall|m: int| 0 <= m < j ==> info_view(#[trigger] out@[m]) == running_app_view(*directory, idv[order@[m] as int]),
        decreases order.len() - j,
    {
        let app = build_running_app(directory, ids[order[j]].as_str());
        out.push(app);
        j += 1;
    }
    let ghost ord = Seq::new(order@.len(), |m: int| order@[m] as int);
    assert(lists_running_apps(*directory, string_views(idents@), out@, idv, ord));
    out
}

} // verus!
