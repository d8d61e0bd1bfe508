//! The color themes that the user has written down, and when they are read
//! again.

use vstd::prelude::*;

use crate::text::same_text;
use crate::theme_layout::{ColorFilter, ColorTheme, ElementEntry};

verus! {

/// The name of the file that holds the themes, next to the main configuration.
pub const FILE_NAME: &'static str = "color-themes.yaml";

/// What a [`ColorTheme`] stands for.
#[verifier::ext_equal]
pub struct ThemeView {
    pub filter: ColorFilter,
    pub elements: Seq<ElementEntry>,
    pub detect_colors: bool,
    pub skip_if_dark: bool,
}

impl View for ColorTheme {
    type V = ThemeView;

    open spec fn view(&self) -> ThemeView {
        ThemeView {
            filter: self.options.filter,
            elements: self.options.elements@,
            detect_colors: self.options.detect_colors,
            skip_if_dark: self.options.skip_if_dark,
        }
    }
}

impl ColorTheme {
    /// Whether both draw the same.
    pub fn is_same(&self, other: &ColorTheme) -> (result: bool)
        ensures
            result == (self@ == other@),
    {
        if self.options.filter != other.options.filter || self.options.detect_colors
            != other.options.detect_colors || self.options.skip_if_dark
            != other.options.skip_if_dark || self.options.elements.len()
            != other.options.elements.len() {
            return false;
        }
        let mut i: usize = 0;
        while i < self.options.elements.len()
            invariant
                i <= self.options.elements@.len() == other.options.elements@.len(),
                forall|k: int|
                    0 <= k < i ==> #[trigger] self.options.elements@[k]
                        == other.options.elements@[k],
            decreases self.options.elements@.len() - i,
        {
            if self.options.elements[i] != other.options.elements[i] {
                return false;
            }
            i = i + 1;
        }
        proof {
            assert(self.options.elements@ =~= other.options.elements@);
        }
        true
    }
}

/// A theme under its name.
#[derive(Debug)]
pub struct NamedTheme {
    pub name: String,
    pub theme: ColorTheme,
}

/// The themes that a list of them stands for. Of two by the same name, the
/// later one counts.
pub open spec fn themes_by_name(entries: Seq<NamedTheme>) -> Map<Seq<char>, ThemeView>
    decreases entries.len(),
{
    if entries.len() == 0 {
        Map::empty()
    } else {
        themes_by_name(entries.drop_last()).insert(entries.last().name@, entries.last().theme@)
    }
}

/// The themes of the user.
#[derive(Debug)]
pub struct ColorThemes {
    /// The file that they are read from.
    pub path: String,
    /// When the file had last been changed as it was read; nothing if there was
    /// none.
    pub modified: Option<u64>,
    pub themes: Vec<NamedTheme>,
}

impl View for ColorThemes {
    type V = Map<Seq<char>, ThemeView>;

    open spec fn view(&self) -> Map<Seq<char>, ThemeView> {
        themes_by_name(self.themes@)
    }
}

/// The theme called `name`, the last one first.
fn find_theme<'a>(entries: &'a Vec<NamedTheme>, name: &str) -> (result: Option<&'a ColorTheme>)
    ensures
        match result {
            Some(theme) => themes_by_name(entries@).contains_key(name@) && themes_by_name(
                entries@,
            )[name@] == theme@,
            None => !themes_by_name(entries@).contains_key(name@),
        },
        result matches Some(theme) ==> exists|k: int|
            0 <= k < entries@.len() && (#[trigger] entries@[k]).theme == *theme,
{
    let mut i: usize = entries.len();
    proof {
        assert(entries@.subrange(0, entries@.len() as int) =~= entries@);
    }
    while i > 0
        invariant
            i <= entries@.len(),
            themes_by_name(entries@.subrange(0, i as int)).contains_key(name@) == themes_by_name(
                entries@,
            ).contains_key(name@),
            themes_by_name(entries@.subrange(0, i as int))[name@] == themes_by_name(
                entries@,
            )[name@],
        decreases i,
    {
        let entry = &entries[i - 1];
        proof {
            let cur = entries@.subrange(0, i as int);
            assert(cur.last() == *entry);
            assert(cur.drop_last() =~= entries@.subrange(0, i - 1));
        }
        if same_text(&entry.name, name) {
            proof {
                assert(entries@[i - 1].theme == entry.theme);
            }
            return Some(&entry.theme);
        }
        i = i - 1;
    }
    proof {
        assert(entries@.subrange(0, 0) =~= Seq::<NamedTheme>::empty());
    }
    None
}

proof fn lemma_themes_domain(entries: Seq<NamedTheme>, name: Seq<char>)
    ensures
        themes_by_name(entries).contains_key(name) <==> exists|k: int|
            0 <= k < entries.len() && (#[trigger] entries[k]).name@ == name,
    decreases entries.len(),
{
    if entries.len() > 0 {
        let d = entries.drop_last();
        lemma_themes_domain(d, name);
        if exists|k: int| 0 <= k < d.len() && (#[trigger] d[k]).name@ == name {
            let k = choose|k: int| 0 <= k < d.len() && (#[trigger] d[k]).name@ == name;
            assert(entries[k].name@ == name);
        }
        if exists|k: int| 0 <= k < entries.len() && (#[trigger] entries[k]).name@ == name {
            let k = choose|k: int| 0 <= k < entries.len() && (#[trigger] entries[k]).name@ == name;
            if k < d.len() {
                assert(d[k].name@ == name);
            }
        }
    }
}

/// Whether each theme that `a` lists is the same in `b`.
fn is_part_of(a: &Vec<NamedTheme>, b: &Vec<NamedTheme>) -> (result: bool)
    ensures
        result == forall|k: int|
            0 <= k < a@.len() ==> {
                let name = (#[trigger] a@[k]).name@;
                themes_by_name(b@).contains_key(name) && themes_by_name(b@)[name]
                    == themes_by_name(a@)[name]
            },
{
    let mut i: usize = 0;
    while i < a.len()
        invariant
            i <= a@.len(),
            forall|k: int|
                0 <= k < i ==> {
                    let name = (#[trigger] a@[k]).name@;
                    themes_by_name(b@).contains_key(name) && themes_by_name(b@)[name]
                        == themes_by_name(a@)[name]
                },
        decreases a@.len() - i,
    {
        let name = a[i].name.as_str();
        proof {
            lemma_themes_domain(a@, a@[i as int].name@);
        }
        let same: bool = match (find_theme(a, name), find_theme(b, name)) {
            (Some(x), Some(y)) => x.is_same(y),
            _ => false,
        };
        if !same {
            proof {
                assert(a@[i as int].name@ == name@);
            }
            return false;
        }
        i = i + 1;
    }
    true
}

/// Whether both lists stand for the same themes.
fn same_themes(a: &Vec<NamedTheme>, b: &Vec<NamedTheme>) -> (result: bool)
    ensures
        result == (themes_by_name(a@) == themes_by_name(b@)),
{
    let ab: bool = is_part_of(a, b);
    let ba: bool = is_part_of(b, a);
    proof {
        let x = themes_by_name(a@);
        let y = themes_by_name(b@);
        if ab && ba {
            assert forall|name: Seq<char>| #[trigger] x.contains_key(name) <==> y.contains_key(
                name,
            ) by {
                lemma_themes_domain(a@, name);
                lemma_themes_domain(b@, name);
            }
            assert forall|name: Seq<char>| #[trigger] x.contains_key(name) implies x[name]
                == y[name] by {
                lemma_themes_domain(a@, name);
            }
            assert(x =~= y);
        }
        if x == y {
            assert forall|k: int| 0 <= k < a@.len() implies {
                let name = (#[trigger] a@[k]).name@;
                y.contains_key(name) && y[name] == x[name]
            } by {
                lemma_themes_domain(a@, a@[k].name@);
            }
            assert forall|k: int| 0 <= k < b@.len() implies {
                let name = (#[trigger] b@[k]).name@;
                x.contains_key(name) && x[name] == y[name]
            } by {
                lemma_themes_domain(b@, b@[k].name@);
            }
        }
    }
    ab && ba
}

/// The themes after a look at the file, and whether they changed. `modified`
/// says when the file was changed last, and `read` what was read from it, if it
/// could be made sense of.
pub open spec fn reloaded(
    themes: Map<Seq<char>, ThemeView>,
    last: Option<u64>,
    modified: Option<u64>,
    read: Option<Map<Seq<char>, ThemeView>>,
) -> Map<Seq<char>, ThemeView> {
    if modified == last {
        themes
    } else if modified is None {
        Map::empty()
    } else {
        match read {
            Some(new) => new,
            None => themes,
        }
    }
}

pub open spec fn opt_themes(read: Option<Vec<NamedTheme>>) -> Option<Map<Seq<char>, ThemeView>> {
    match read {
        Some(entries) => Some(themes_by_name(entries@)),
        None => None,
    }
}

impl ColorThemes {
    /// The themes of the file at `path`, of which `modified` and `read` say when
    /// it was changed last and what was read from it.
    pub fn new(path: String, modified: Option<u64>, read: Option<Vec<NamedTheme>>) -> (result:
        ColorThemes)
        ensures
            result.path == path,
            result.modified == modified,
            result@ == reloaded(Map::empty(), None, modified, opt_themes(read)),
    {
        let mut themes = ColorThemes { path, modified: None, themes: Vec::new() };
        let _changed: bool = themes.reload_if_changed(modified, read);
        themes
    }

    /// The theme called `name`.
    pub fn get(&self, name: &str) -> (result: Option<&ColorTheme>)
        ensures
            match result {
                Some(theme) => self@.contains_key(name@) && self@[name@] == theme@,
                None => !self@.contains_key(name@),
            },
            result matches Some(theme) ==> exists|k: int|
                0 <= k < self.themes@.len() && (#[trigger] self.themes@[k]).theme == *theme,
    {
        find_theme(&self.themes, name)
    }

    /// Whether the file has to be read: it has changed and is still there.
    pub fn needs_read(&self, modified: Option<u64>) -> (result: bool)
        ensures
            result == (modified != self.modified && modified is Some),
    {
        modified != self.modified && modified.is_some()
    }

    /// Takes over what was read from the file, unless it is as it was, or could
    /// not be made sense of. A file that is gone means that there are no
    /// themes. Returns whether the themes changed.
    pub fn reload_if_changed(&mut self, modified: Option<u64>, read: Option<Vec<NamedTheme>>) -> (
        changed: bool)
        ensures
            final(self).path == old(self).path,
            final(self).modified == modified,
            final(self)@ == reloaded(old(self)@, old(self).modified, modified, opt_themes(read)),
            changed == (final(self)@ != old(self)@),
    {
        if modified == self.modified {
            return false;
        }
        self.modified = modified;
        if modified.is_none() {
            proof {
                if self.themes@.len() > 0 {
                    lemma_themes_domain(self.themes@, self.themes@[0].name@);
                    assert(themes_by_name(self.themes@).contains_key(self.themes@[0].name@));
                }
            }
            if self.themes.len() == 0 {
                return false;
            }
            self.themes = Vec::new();
            return true;
        }
        match read {
            Some(entries) => {
                let changed: bool = !same_themes(&entries, &self.themes);
                self.themes = entries;
                changed
            },
            None => false,
        }
    }
}

/// What cannot be made sense of never takes a theme away.
pub proof fn invalid_edit_keeps_themes(
    themes: Map<Seq<char>, ThemeView>,
    last: Option<u64>,
    modified: u64,
)
    ensures
        reloaded(themes, last, Some(modified), None) == themes,
{
}

/// A theme is found under its name, and of two by the same name the later one.
pub proof fn later_themes_count(entries: Seq<NamedTheme>, entry: NamedTheme, name: Seq<char>)
    ensures
        themes_by_name(Seq::empty()) == Map::<Seq<char>, ThemeView>::empty(),
        themes_by_name(entries.push(entry)).contains_key(entry.name@),
        themes_by_name(entries.push(entry))[entry.name@] == entry.theme@,
        name != entry.name@ ==> {
            &&& themes_by_name(entries.push(entry)).contains_key(name) <==> themes_by_name(
                entries,
            ).contains_key(name)
            &&& themes_by_name(entries).contains_key(name) ==> themes_by_name(
                entries.push(entry),
            )[name] == themes_by_name(entries)[name]
        },
{
    assert(entries.push(entry).drop_last() =~= entries);
}

/// Two themes are the same only if everything that they draw by is.
pub proof fn themes_are_what_they_draw_by(a: ColorTheme)
    ensures
        a@.filter == a.options.filter,
        a@.elements == a.options.elements@,
        a@.detect_colors == a.options.detect_colors,
        a@.skip_if_dark == a.options.skip_if_dark,
{
}

/// Themes are read again only once the file has changed. If it is gone, there
/// are none, and else they are what was read.
pub proof fn changed_files_are_read_again(
    themes: Map<Seq<char>, ThemeView>,
    last: Option<u64>,
    modified: u64,
    read: Map<Seq<char>, ThemeView>,
)
    ensures
        reloaded(themes, last, last, Some(read)) == themes,
        last is Some ==> reloaded(themes, last, None, Some(read)) == Map::<
            Seq<char>,
            ThemeView,
        >::empty(),
        last != Some(modified) ==> reloaded(themes, last, Some(modified), Some(read)) == read,
{
}

} // verus!
