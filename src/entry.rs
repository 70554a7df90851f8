use vstd::prelude::*;
use crate::config::LayoutConfig;

verus! {

/// What kind of filesystem object an entry is.
#[derive(Clone, Copy, Debug, PartialEq, Eq, Structural)]
pub enum EntryKind {
    Directory,
    Executable,
    PlainFile,
}

/// A child of the listed directory, as the filesystem reports it.
pub struct Child {
    pub name: Vec<char>,
    pub is_dir: bool,
    /// The permission bits of the child's mode.
    pub mode: u32,
}

/// One entry of the listing: a display name, a kind and whether it is hidden.
pub struct Entry {
    pub name: Vec<char>,
    pub kind: EntryKind,
    pub hidden: bool,
}

/// The mathematical value of an [`Entry`].
pub struct EntryView {
    pub name: Seq<char>,
    pub kind: EntryKind,
    pub hidden: bool,
}

impl View for Entry {
    type V = EntryView;

    open spec fn view(&self) -> EntryView {
        EntryView { name: self.name@, kind: self.kind, hidden: self.hidden }
    }
}

/// The views of a sequence of entries.
pub open spec fn entry_views(es: Seq<Entry>) -> Seq<EntryView> {
    es.map_values(|e: Entry| e@)
}

/// A directory is a directory; otherwise any execute bit makes an executable.
pub open spec fn kind_of(is_dir: bool, mode: u32) -> EntryKind {
    if is_dir {
        EntryKind::Directory
    } else if mode & 0o111u32 != 0 {
        EntryKind::Executable
    } else {
        EntryKind::PlainFile
    }
}

/// The number of characters a name is cut to.
pub open spec fn name_limit(cfg: LayoutConfig) -> nat {
    if cfg.truncate {
        cfg.truncate_at as nat
    } else {
        cfg.absolute_limit as nat
    }
}

/// The first `limit` characters of `name`, or all of it when it is shorter.
pub open spec fn limited(name: Seq<char>, limit: nat) -> Seq<char> {
    if name.len() <= limit {
        name
    } else {
        name.take(limit as int)
    }
}

/// A name that begins with a period is hidden.
pub open spec fn is_hidden(name: Seq<char>) -> bool {
    name.len() > 0 && name[0] == '.'
}

/// The entry that a child becomes: cut first, then tested for a leading period.
pub open spec fn entry_of(c: Child, cfg: LayoutConfig) -> EntryView {
    let n = limited(c.name@, name_limit(cfg));
    EntryView { name: n, kind: kind_of(c.is_dir, c.mode), hidden: is_hidden(n) }
}

/// Whether a child appears in the listing.
pub open spec fn is_listed(c: Child, show_hidden: bool, cfg: LayoutConfig) -> bool {
    show_hidden || !entry_of(c, cfg).hidden
}

/// The entries of the listed children, in the order the children came.
pub open spec fn listed_entries(cs: Seq<Child>, show_hidden: bool, cfg: LayoutConfig) -> Seq<
    EntryView,
>
    decreases cs.len(),
{
    if cs.len() == 0 {
        Seq::empty()
    } else {
        let prev = listed_entries(cs.drop_last(), show_hidden, cfg);
        if is_listed(cs.last(), show_hidden, cfg) {
            prev.push(entry_of(cs.last(), cfg))
        } else {
            prev
        }
    }
}

/// How many children appear in the listing.
pub open spec fn listed_count(cs: Seq<Child>, show_hidden: bool, cfg: LayoutConfig) -> nat
    decreases cs.len(),
{
    if cs.len() == 0 {
        0
    } else {
        listed_count(cs.drop_last(), show_hidden, cfg) + if is_listed(
            cs.last(),
            show_hidden,
            cfg,
        ) {
            1nat
        } else {
            0nat
        }
    }
}

/// The kind of a child from its directory flag and permission bits.
pub fn entry_kind(is_dir: bool, mode: u32) -> (r: EntryKind)
    ensures
        r == kind_of(is_dir, mode),
{
    if is_dir {
        EntryKind::Directory
    } else if mode & 0o111u32 != 0 {
        EntryKind::Executable
    } else {
        EntryKind::PlainFile
    }
}

/// The first `limit` characters of `name`.
pub fn truncate_name(name: &Vec<char>, limit: usize) -> (r: Vec<char>)
    ensures
        r@ == limited(name@, limit as nat),
{
    let mut r: Vec<char> = Vec::new();
    let mut i: usize = 0;
    while i < name.len() && i < limit
        invariant
            i <= name@.len(),
            i <= limit,
            r@ == name@.take(i as int),
        decreases name@.len() - i,
    {
        r.push(name[i]);
        i = i + 1;
        assert(name@.take(i as int) =~= name@.take(i - 1).push(name@[i - 1]));
    }
    if name.len() <= limit {
        assert(name@.take(i as int) =~= name@);
    }
    r
}

/// Turns one child into its entry.
pub fn classify_child(c: &Child, cfg: &LayoutConfig) -> (r: Entry)
    ensures
        r@ == entry_of(*c, *cfg),
{
    let limit = if cfg.truncate {
        cfg.truncate_at
    } else {
        cfg.absolute_limit
    };
    let name = truncate_name(&c.name, limit);
    let hidden = name.len() > 0 && name[0] == '.';
    Entry { name, kind: entry_kind(c.is_dir, c.mode), hidden }
}

/// The entries of a directory's children: each is classified and cut, and
/// hidden ones are dropped unless `show_hidden` is set. Order is kept.
pub fn classify(children: &Vec<Child>, show_hidden: bool, cfg: &LayoutConfig) -> (r: Vec<Entry>)
    ensures
        entry_views(r@) == listed_entries(children@, show_hidden, *cfg),
{
    let mut r: Vec<Entry> = Vec::new();
    let mut i: usize = 0;
    while i < children.len()
        invariant
            i <= children@.len(),
            entry_views(r@) == listed_entries(children@.take(i as int), show_hidden, *cfg),
        decreases children@.len() - i,
    {
        let e = classify_child(&children[i], cfg);
        let ghost before = r@;
        if show_hidden || !e.hidden {
            r.push(e);
            assert(entry_views(r@) =~= entry_views(before).push(e@));
        }
        assert(children@.take(i + 1).drop_last() =~= children@.take(i as int));
        i = i + 1;
    }
    assert(children@.take(i as int) =~= children@);
    r
}

/// Every listed child gives exactly one entry.
pub proof fn lemma_listed_len(cs: Seq<Child>, show_hidden: bool, cfg: LayoutConfig)
    ensures
        listed_entries(cs, show_hidden, cfg).len() == listed_count(cs, show_hidden, cfg),
    decreases cs.len(),
{
    if cs.len() > 0 {
        lemma_listed_len(cs.drop_last(), show_hidden, cfg);
    }
}

} // verus!
