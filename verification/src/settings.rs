//! The application's settings, how the settings dialog changes them, and the
//! files and folders the application keeps them and its data in.
use vstd::prelude::*;
use crate::mac::lowercase;
use crate::text::{opt_text, owned, trim, trimmed};

verus! {

/// The user's settings, kept in `settings.json`.
#[derive(Debug, Clone)]
pub struct Settings {
    /// The Firebase API key used to register cameras.
    pub api_key: String,
    /// Whether the news panel is shown.
    pub news: bool,
    /// Whether a single image is shown in place of the news.
    pub unique_image: bool,
    /// The path of that single image, empty when none is chosen.
    pub unique_image_path: String,
}

impl Settings {
    /// The news panel and the single image are never both switched on by the
    /// dialog.
    pub open spec fn exclusive(&self) -> bool {
        !(self.news && self.unique_image)
    }

    /// The settings used when none are stored: no API key, no news, no single image.
    pub open spec fn is_default(&self) -> bool {
        &&& self.api_key@ == Seq::<char>::empty()
        &&& !self.news
        &&& !self.unique_image
        &&& self.unique_image_path@ == Seq::<char>::empty()
    }

    /// The settings used when none are stored.
    pub fn new_default() -> (r: Settings)
        ensures
            r.is_default(),
    {
        Settings {
            api_key: String::new(),
            news: false,
            unique_image: false,
            unique_image_path: String::new(),
        }
    }

    /// The settings to start with: those read from `settings.json` when it
    /// could be read and parsed, else the default ones.
    pub fn from_loaded(loaded: Option<Settings>) -> (r: Settings)
        ensures
            match loaded {
                Some(s) => r == s,
                None => r.is_default(),
            },
    {
        match loaded {
            Some(s) => s,
            None => Settings::new_default(),
        }
    }

    /// The API key entry changed: the key is the entered text, trimmed.
    pub fn set_api_key(&mut self, text: &str)
        ensures
            final(self).api_key@ == trimmed(text@),
            final(self).news == old(self).news,
            final(self).unique_image == old(self).unique_image,
            final(self).unique_image_path == old(self).unique_image_path,
    {
        self.api_key = trim(text);
    }

    /// The news switch was turned on or off. Turning the news on turns the
    /// single image off. Returns whether the single-image switch stays
    /// usable: only while the news is off.
    pub fn switch_news(&mut self, active: bool) -> (other_sensitive: bool)
        ensures
            final(self).news == active,
            final(self).unique_image == (old(self).unique_image && !active),
            final(self).api_key == old(self).api_key,
            final(self).unique_image_path == old(self).unique_image_path,
            other_sensitive == !active,
    {
        self.news = active;
        if active {
            self.unique_image = false;
        }
        !active
    }

    /// The single-image switch was turned on or off. Turning it on turns the
    /// news off. Returns whether the news switch stays usable: only while the
    /// single image is off.
    pub fn switch_unique_image(&mut self, active: bool) -> (other_sensitive: bool)
        ensures
            final(self).unique_image == active,
            final(self).news == (old(self).news && !active),
            final(self).api_key == old(self).api_key,
            final(self).unique_image_path == old(self).unique_image_path,
            other_sensitive == !active,
    {
        self.unique_image = active;
        if active {
            self.news = false;
        }
        !active
    }

    /// An image was chosen for the single-image mode.
    pub fn set_unique_image_path(&mut self, path: String)
        ensures
            final(self).unique_image_path == path,
            final(self).api_key == old(self).api_key,
            final(self).news == old(self).news,
            final(self).unique_image == old(self).unique_image,
    {
        self.unique_image_path = path;
    }

    /// The chosen image was cleared.
    pub fn clear_unique_image_path(&mut self)
        ensures
            final(self).unique_image_path@ == Seq::<char>::empty(),
            final(self).api_key == old(self).api_key,
            final(self).news == old(self).news,
            final(self).unique_image == old(self).unique_image,
    {
        self.unique_image_path = String::new();
    }

    /// Whether the dialog lets the news switch be used: not while the single
    /// image is on.
    pub fn news_switch_sensitive(&self) -> (r: bool)
        ensures
            r == !self.unique_image,
    {
        !self.unique_image
    }

    /// Whether the dialog lets the single-image switch be used: not while the
    /// news is on.
    pub fn unique_image_switch_sensitive(&self) -> (r: bool)
        ensures
            r == !self.news,
    {
        !self.news
    }
}

/// After either switch of the settings dialog is used, the news and the
/// single image are not both on, whatever the settings were before.
pub proof fn law_switches_exclusive(s: Settings, active: bool)
    ensures
        (Settings { news: active, unique_image: s.unique_image && !active, ..s }).exclusive(),
        (Settings { unique_image: active, news: s.news && !active, ..s }).exclusive(),
{
}

/// `base` joined with the relative single-component `name`, as
/// `PathBuf::join` does it with `/` separators.
pub open spec fn joined(base: Seq<char>, name: Seq<char>) -> Seq<char> {
    if base.len() == 0 || base.last() == '/' {
        base + name
    } else {
        base + seq!['/'] + name
    }
}

/// `base` joined with the relative path `name`.
pub fn join_path(base: &str, name: &str) -> (r: String)
    requires
        name@.len() > 0,
        name@[0] != '/',
    ensures
        r@ == joined(base@, name@),
{
    proof {
        reveal_strlit("/");
    }
    let b = owned(base);
    let n = base.unicode_len();
    if n == 0 || base.get_char(n - 1) == '/' {
        b.concat(name)
    } else {
        b.concat("/").concat(name)
    }
}

/// The file that holds the list of devices, in the configuration folder.
pub fn get_devices_path(config_dir: &str) -> (r: String)
    ensures
        r@ == joined(config_dir@, "devices.json"@),
{
    proof {
        reveal_strlit("devices.json");
    }
    join_path(config_dir, "devices.json")
}

/// The file that holds the settings, in the configuration folder.
pub fn get_settings_file_path(config_dir: &str) -> (r: String)
    ensures
        r@ == joined(config_dir@, "settings.json"@),
{
    proof {
        reveal_strlit("settings.json");
    }
    join_path(config_dir, "settings.json")
}

/// The folder that holds the news images, in the local data folder.
pub fn news_folder(app_data_dir: &str) -> (r: String)
    ensures
        r@ == joined(app_data_dir@, "news"@),
{
    proof {
        reveal_strlit("news");
    }
    join_path(app_data_dir, "news")
}

/// The position of the last `c` in `s`, or -1.
pub open spec fn last_index_of(s: Seq<char>, c: char) -> int
    decreases s.len(),
{
    if s.len() == 0 {
        -1
    } else if s.last() == c {
        s.len() - 1
    } else {
        last_index_of(s.drop_last(), c)
    }
}

/// A path component that `Path::components` skips: empty (between
/// repeated separators or after a trailing one) or `.`.
pub open spec fn is_skipped_segment(seg: Seq<char>) -> bool {
    seg.len() == 0 || (seg.len() == 1 && seg[0] == '.')
}

/// The component `..`.
pub open spec fn is_parent_segment(seg: Seq<char>) -> bool {
    seg.len() == 2 && seg[0] == '.' && seg[1] == '.'
}

/// What `Path::file_name` gives for a path with `/` separators: the last
/// component when it is a name; `None` when the path ends in `..`, is a root
/// or `.`, or is empty.
pub open spec fn path_file_name(path: Seq<char>) -> Option<Seq<char>>
    decreases path.len(),
{
    if path.len() == 0 {
        None
    } else {
        let k = last_index_of(path, '/');
        let seg = path.subrange(k + 1, path.len() as int);
        if is_skipped_segment(seg) {
            if k < 0 {
                None
            } else {
                proof {
                    lemma_last_index_of_bounds(path, '/');
                }
                path_file_name(path.take(k))
            }
        } else if is_parent_segment(seg) {
            None
        } else {
            Some(seg)
        }
    }
}

/// The extension of a file name, as `Path::extension` documents it: `None`
/// without a `.`, `None` when the only `.` is the first character, else what
/// follows the last `.`.
pub open spec fn name_extension(name: Seq<char>) -> Option<Seq<char>> {
    let k = last_index_of(name, '.');
    if k <= 0 {
        None
    } else {
        Some(name.subrange(k + 1, name.len() as int))
    }
}

/// The extensions of the images shown as news, in lower case.
pub open spec fn is_image_extension(e: Seq<char>) -> bool {
    e == "png"@ || e == "jpg"@ || e == "jpeg"@ || e == "gif"@
}

/// Whether a file of the news folder is shown as news: its extension, in
/// lower case, is `png`, `jpg`, `jpeg` or `gif`.
pub open spec fn is_news_image(path: Seq<char>) -> bool {
    match path_file_name(path) {
        Some(n) => match name_extension(n) {
            Some(e) => is_image_extension(lowercase(e)),
            None => false,
        },
        None => false,
    }
}

/// The paths among `paths` that are news images, in order.
pub open spec fn news_images(paths: Seq<Seq<char>>) -> Seq<Seq<char>>
    decreases paths.len(),
{
    if paths.len() == 0 {
        Seq::empty()
    } else if is_news_image(paths.last()) {
        news_images(paths.drop_last()).push(paths.last())
    } else {
        news_images(paths.drop_last())
    }
}

/// The position of the last `c` among `v`, or `None`.
fn last_index(v: &Vec<char>, c: char) -> (r: Option<usize>)
    ensures
        match r {
            Some(k) => k as int == last_index_of(v@, c) && k < v.len(),
            None => last_index_of(v@, c) == -1,
        },
{
    let mut i = v.len();
    assert(v@.take(i as int) =~= v@);
    while i > 0
        invariant
            i <= v.len(),
            last_index_of(v@, c) == last_index_of(v@.take(i as int), c),
        decreases i,
    {
        assert(v@.take(i as int).drop_last() =~= v@.take(i - 1));
        if v[i - 1] == c {
            return Some(i - 1);
        }
        i = i - 1;
    }
    None
}

/// What `last_index_of` gives on a prefix that keeps the last `c`.
pub proof fn lemma_last_index_of_bounds(s: Seq<char>, c: char)
    ensures
        -1 <= last_index_of(s, c) < s.len(),
        last_index_of(s, c) >= 0 ==> s[last_index_of(s, c)] == c,
        forall|j: int| last_index_of(s, c) < j < s.len() ==> s[j] != c,
    decreases s.len(),
{
    if s.len() > 0 {
        let t = s.drop_last();
        lemma_last_index_of_bounds(t, c);
        assert forall|j: int| last_index_of(s, c) < j < s.len() implies s[j] != c by {
            if j < s.len() - 1 {
                assert(s[j] == t[j]);
            }
        }
    }
}

/// `Path::file_name` on a text path, as text.
pub fn file_name(path: &str) -> (r: Option<String>)
    ensures
        opt_text(r) == path_file_name(path@),
{
    let v = crate::text::chars_of(path);
    let mut end = v.len();
    assert(v@.take(end as int) =~= v@);
    loop
        invariant
            end <= v.len(),
            v@ == path@,
            path_file_name(path@) == path_file_name(v@.take(end as int)),
        decreases end,
    {
        let ghost p = v@.take(end as int);
        if end == 0 {
            return None;
        }
        let mut i = end;
        while i > 0 && v[i - 1] != '/'
            invariant
                i <= end <= v.len(),
                p == v@.take(end as int),
                forall|j: int| i <= j < end ==> v@[j] != '/',
            decreases i,
        {
            i = i - 1;
        }
        proof {
            lemma_last_index_of_bounds(p, '/');
            let k = last_index_of(p, '/');
            if i > 0 {
                assert(p[i - 1] == '/');
                assert(k == i - 1) by {
                    if k > i - 1 {
                        assert(p[k] == v@[k]);
                    }
                }
            } else {
                assert(k == -1) by {
                    if k >= 0 {
                        assert(p[k] == v@[k]);
                    }
                }
            }
            assert(p.subrange(k + 1, p.len() as int) =~= v@.subrange(i as int, end as int));
        }
        let len = end - i;
        let skipped = len == 0 || (len == 1 && v[i] == '.');
        if skipped {
            if i == 0 {
                return None;
            }
            proof {
                assert(p.take(i - 1) =~= v@.take(i - 1));
            }
            end = i - 1;
        } else if len == 2 && v[i] == '.' && v[i + 1] == '.' {
            return None;
        } else {
            return Some(crate::text::string_from_range(&v, i, end));
        }
    }
}

/// The extension of a file name.
pub fn extension(name: &str) -> (r: Option<String>)
    ensures
        match r {
            Some(e) => name_extension(name@) == Some(e@),
            None => name_extension(name@) is None,
        },
{
    let v = crate::text::chars_of(name);
    match last_index(&v, '.') {
        Some(k) => {
            if k == 0 {
                None
            } else {
                Some(crate::text::string_from_range(&v, k + 1, v.len()))
            }
        },
        None => None,
    }
}

/// Whether the lower-case text is one of the image extensions.
pub fn image_extension(e: &str) -> (r: bool)
    ensures
        r == is_image_extension(e@),
{
    proof {
        reveal_strlit("png");
        reveal_strlit("jpg");
        reveal_strlit("jpeg");
        reveal_strlit("gif");
    }
    let v = crate::text::chars_of(e);
    if v.len() == 3 {
        let r = (v[0] == 'p' && v[1] == 'n' && v[2] == 'g') || (v[0] == 'j' && v[1] == 'p' && v[2]
            == 'g') || (v[0] == 'g' && v[1] == 'i' && v[2] == 'f');
        assert(r ==> is_image_extension(e@)) by {
            if v[0] == 'p' && v[1] == 'n' && v[2] == 'g' {
                assert(e@ =~= "png"@);
            } else if v[0] == 'j' && v[1] == 'p' && v[2] == 'g' {
                assert(e@ =~= "jpg"@);
            } else if r {
                assert(e@ =~= "gif"@);
            }
        }
        r
    } else if v.len() == 4 {
        let r = v[0] == 'j' && v[1] == 'p' && v[2] == 'e' && v[3] == 'g';
        assert(r ==> e@ =~= "jpeg"@);
        r
    } else {
        false
    }
}

/// Whether the file at `path` is shown as news.
pub fn is_news_image_path(path: &str) -> (r: bool)
    ensures
        r == is_news_image(path@),
{
    match file_name(path) {
        Some(n) => match extension(n.as_str()) {
            Some(e) => {
                let low = crate::mac::to_lowercase(e.as_str());
                image_extension(low.as_str())
            },
            None => false,
        },
        None => false,
    }
}

/// The views of a list of strings.
pub open spec fn views(v: Seq<String>) -> Seq<Seq<char>> {
    v.map_values(|s: String| s@)
}

/// The news images among the files of the news folder, in the order given.
pub fn list_news_images(paths: &Vec<String>) -> (r: Vec<String>)
    ensures
        views(r@) == news_images(views(paths@)),
{
    let mut r: Vec<String> = Vec::new();
    let n = paths.len();
    for i in 0..n
        invariant
            n == paths.len(),
            views(r@) == news_images(views(paths@.take(i as int))),
    {
        let p = &paths[i];
        assert(views(paths@.take(i + 1)).drop_last() =~= views(paths@.take(i as int)));
        assert(views(paths@.take(i + 1)).last() == p@);
        if is_news_image_path(p.as_str()) {
            r.push(p.clone());
            assert(views(r@) =~= news_images(views(paths@.take(i as int))).push(p@));
        }
    }
    assert(paths@.take(n as int) =~= paths@);
    r
}

/// The text under the "unique image" row of the settings dialog.
pub open spec fn subtitle_for(path: Seq<char>, file_name: Option<Seq<char>>) -> Seq<char> {
    if path.len() == 0 {
        "No file selected"@
    } else {
        match file_name {
            Some(n) => n,
            None => path,
        }
    }
}

/// The subtitle for a chosen image path: "No file selected" for an empty
/// path, else its file name, else the path itself.
pub fn path_subtitle(path: &str) -> (r: String)
    ensures
        r@ == subtitle_for(path@, path_file_name(path@)),
{
    if path.is_empty() {
        "No file selected".to_owned()
    } else {
        match file_name(path) {
            Some(n) => n,
            None => owned(path),
        }
    }
}

/// Picking the news images goes path by path: the images of two lists one
/// after the other are those of the first, then those of the second.
pub proof fn law_news_images_split(a: Seq<Seq<char>>, b: Seq<Seq<char>>)
    ensures
        news_images(a + b) == news_images(a) + news_images(b),
    decreases b.len(),
{
    if b.len() == 0 {
        assert(a + b =~= a);
        assert(news_images(a) + news_images(b) =~= news_images(a));
    } else {
        law_news_images_split(a, b.drop_last());
        assert((a + b).drop_last() =~= a + b.drop_last());
        assert((a + b).last() == b.last());
        if is_news_image(b.last()) {
            assert(news_images(a) + news_images(b) =~= (news_images(a) + news_images(b.drop_last())).push(
                b.last(),
            ));
        }
    }
}

/// A single path is kept exactly when it is a news image.
pub proof fn law_news_images_one(path: Seq<char>)
    ensures
        is_news_image(path) ==> news_images(seq![path]) == seq![path],
        !is_news_image(path) ==> news_images(seq![path]).len() == 0,
{
    let one = seq![path];
    assert(one.len() == 1);
    assert(one.last() == path);
    assert(one.drop_last() =~= Seq::<Seq<char>>::empty());
    assert(news_images(Seq::<Seq<char>>::empty()) == Seq::<Seq<char>>::empty());
    assert(Seq::<Seq<char>>::empty().push(path) =~= one);
}

/// Every news image among the paths is kept, and nothing else: a path is in
/// the result exactly when it is among the paths and is a news image.
pub proof fn law_news_images_members(paths: Seq<Seq<char>>)
    ensures
        forall|p: Seq<char>| #[trigger] news_images(paths).contains(p) <==> (paths.contains(p) && is_news_image(p)),
        news_images(paths).len() <= paths.len(),
    decreases paths.len(),
{
    if paths.len() > 0 {
        let q = paths.drop_last();
        law_news_images_members(q);
        assert(paths =~= q.push(paths.last()));
        if is_news_image(paths.last()) {
            assert(news_images(paths) == news_images(q).push(paths.last()));
        } else {
            assert(news_images(paths) == news_images(q));
        }
        assert forall|p: Seq<char>| #[trigger] news_images(paths).contains(p) <==> (paths.contains(p)
            && is_news_image(p)) by {
            if paths.contains(p) && is_news_image(p) {
                let k = choose|k: int| 0 <= k < paths.len() && paths[k] == p;
                if k < q.len() {
                    assert(q[k] == p);
                    assert(q.contains(p));
                    assert(news_images(q).contains(p));
                    let m = choose|m: int| 0 <= m < news_images(q).len() && news_images(q)[m] == p;
                    if is_news_image(paths.last()) {
                        assert(news_images(paths)[m] == p);
                    }
                    assert(news_images(paths)[m] == p);
                } else {
                    assert(news_images(paths).last() == p);
                }
            }
            if news_images(paths).contains(p) {
                let m = choose|m: int| 0 <= m < news_images(paths).len() && news_images(paths)[m] == p;
                if is_news_image(paths.last()) && m == news_images(q).len() {
                    assert(paths[paths.len() - 1] == p);
                } else {
                    assert(news_images(q)[m] == p);
                    assert(news_images(q).contains(p));
                    let k = choose|k: int| 0 <= k < q.len() && q[k] == p;
                    assert(paths[k] == p);
                }
            }
        }
    }
}

/// Joining keeps the whole folder path and the whole name: the result is
/// `base`, then one `/` unless `base` is empty or already ends with one,
/// then `name`.
pub proof fn law_joined_parts(base: Seq<char>, name: Seq<char>)
    ensures
        joined(base, name).len() == base.len() + name.len() + (if base.len() == 0 || base.last() == '/' {
            0int
        } else {
            1int
        }),
        joined(base, name).take(base.len() as int) == base,
        joined(base, name).skip(joined(base, name).len() - name.len()) == name,
        base.len() > 0 && base.last() != '/' ==> joined(base, name)[base.len() as int] == '/',
{
    let j = joined(base, name);
    assert(j.take(base.len() as int) =~= base);
    assert(j.skip(j.len() - name.len()) =~= name);
}

/// An extension is what follows the last `.` of a file name, when that `.`
/// is not its first character: it holds no `.`, and the name ends with `.`
/// and the whole extension. There is none when no `.` stands past the first
/// character.
pub proof fn law_extension_shape(name: Seq<char>)
    ensures
        name_extension(name) matches Some(e) ==> {
            &&& e.len() + 2 <= name.len()
            &&& name[name.len() - e.len() - 1] == '.'
            &&& name.skip(name.len() - e.len()) == e
            &&& forall|k: int| 0 <= k < e.len() ==> #[trigger] e[k] != '.'
        },
        name_extension(name) is None ==> forall|k: int| 0 < k < name.len() ==> #[trigger] name[k] != '.',
{
    lemma_last_index_of_bounds(name, '.');
    let k = last_index_of(name, '.');
    if k > 0 {
        let e = name.subrange(k + 1, name.len() as int);
        assert(name.skip(name.len() - e.len()) =~= e);
        assert forall|m: int| 0 <= m < e.len() implies #[trigger] e[m] != '.' by {
            assert(e[m] == name[k + 1 + m]);
        }
    }
}

/// The file name of a path is one whole component of it: not empty, without
/// `/`, neither `.` nor `..`, standing in the path from `r` on, with the
/// start of the path or a `/` before it and the end of the path or a `/`
/// after it.
pub proof fn law_file_name_shape(path: Seq<char>) -> (r: int)
    ensures
        path_file_name(path) matches Some(n) ==> {
            &&& n.len() > 0
            &&& n != "."@
            &&& n != ".."@
            &&& forall|k: int| 0 <= k < n.len() ==> #[trigger] n[k] != '/'
            &&& 0 <= r && r + n.len() <= path.len()
            &&& path.subrange(r, r + n.len()) == n
            &&& (r == 0 || path[r - 1] == '/')
            &&& (r + n.len() == path.len() || path[r + n.len()] == '/')
        },
    decreases path.len(),
{
    reveal_strlit(".");
    reveal_strlit("..");
    if path.len() == 0 {
        0
    } else {
        lemma_last_index_of_bounds(path, '/');
        let k = last_index_of(path, '/');
        let seg = path.subrange(k + 1, path.len() as int);
        if is_skipped_segment(seg) {
            if k < 0 {
                0
            } else {
                let t = path.take(k);
                let r0 = law_file_name_shape(t);
                if path_file_name(t) is Some {
                    let n = path_file_name(t)->0;
                    assert(t.subrange(r0, r0 + n.len()) =~= path.subrange(r0, r0 + n.len()));
                    if r0 > 0 {
                        assert(t[r0 - 1] == path[r0 - 1]);
                    }
                    if r0 + n.len() < t.len() {
                        assert(t[r0 + n.len()] == path[r0 + n.len()]);
                    }
                }
                r0
            }
        } else if is_parent_segment(seg) {
            0
        } else {
            assert forall|m: int| 0 <= m < seg.len() implies #[trigger] seg[m] != '/' by {
                assert(seg[m] == path[k + 1 + m]);
            }
            if seg == "."@ {
                assert(seg.len() == 1 && seg[0] == '.');
            }
            if seg == ".."@ {
                assert(seg[0] == '.' && seg[1] == '.');
            }
            k + 1
        }
    }
}

/// The subtitle names the chosen file in full: "No file selected" when no
/// path is chosen, else the path's file name, else the whole path.
pub proof fn law_subtitle_names_file(path: Seq<char>)
    ensures
        path.len() == 0 ==> subtitle_for(path, path_file_name(path)) == "No file selected"@,
        path.len() > 0 ==> (path_file_name(path) matches Some(n) ==> subtitle_for(path, path_file_name(path))
            == n),
        path.len() > 0 && path_file_name(path) is None ==> subtitle_for(path, path_file_name(path)) == path,
{
}

} // verus!
