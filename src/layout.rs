use vstd::prelude::*;
use crate::config::LayoutConfig;
use crate::entry::{
    Child, Entry, EntryKind, EntryView, classify, entry_views, lemma_listed_len, listed_count,
    listed_entries, name_limit,
};
use crate::text::{append_chars, append_spaces, copy_chars, spaces};

verus! {

/// The widest visible name, starting from `start`: names of hidden entries
/// do not widen the column.
pub open spec fn widest_visible(es: Seq<EntryView>, start: nat) -> nat
    decreases es.len(),
{
    if es.len() == 0 {
        start
    } else {
        let w = widest_visible(es.drop_last(), start);
        let e = es.last();
        if !e.hidden && e.name.len() > w {
            e.name.len()
        } else {
            w
        }
    }
}

/// The width every entry is padded to: the cut length when names are cut,
/// else the widest visible name, but never less than `truncate_at`.
pub open spec fn column_width(es: Seq<EntryView>, cfg: LayoutConfig) -> nat {
    if cfg.truncate {
        cfg.truncate_at as nat
    } else {
        widest_visible(es, cfg.truncate_at as nat)
    }
}

/// `name` followed by spaces up to `width` characters; a longer name is kept whole.
pub open spec fn padded(name: Seq<char>, width: nat) -> Seq<char> {
    if name.len() < width {
        name + spaces((width - name.len()) as nat)
    } else {
        name
    }
}

/// The entry with its name padded to `width`.
pub open spec fn padded_entry(e: EntryView, width: nat) -> EntryView {
    EntryView { name: padded(e.name, width), kind: e.kind, hidden: e.hidden }
}

/// Entries per line: the configured count, or as many columns of
/// `width + spacing` characters as fit in `columns`. None fit in a column of
/// no width, and zero means one unbroken line.
pub open spec fn items_per_line_of(cfg: LayoutConfig, width: nat, columns: nat) -> nat {
    if cfg.items_explicit {
        cfg.items as nat
    } else if width + cfg.spacing == 0 {
        0
    } else {
        columns / (width + cfg.spacing) as nat
    }
}

/// The colour sequence that opens an entry.
pub open spec fn color_of(kind: EntryKind, hidden: bool) -> Seq<char> {
    if hidden {
        match kind {
            EntryKind::Directory => seq!['\x1b', '[', '0', ';', '3', '4', 'm'],
            EntryKind::Executable => seq!['\x1b', '[', '0', ';', '3', '3', 'm'],
            EntryKind::PlainFile => seq!['\x1b', '[', '1', ';', '3', '0', 'm'],
        }
    } else {
        match kind {
            EntryKind::Directory => seq!['\x1b', '[', '1', ';', '3', '4', 'm'],
            EntryKind::Executable => seq!['\x1b', '[', '1', ';', '3', '3', 'm'],
            EntryKind::PlainFile => seq!['\x1b', '[', '0', ';', '3', '7', 'm'],
        }
    }
}

/// The sequence printed after each name.
pub open spec fn reset_color() -> Seq<char> {
    seq!['\x1b', '[', '0', ';', '3', '7', 'm']
}

/// Whether a line ends after the entry at `index`.
pub open spec fn breaks_after(index: nat, items_per_line: nat) -> bool {
    items_per_line != 0 && index % items_per_line == 0
}

/// The text printed for the entry at `index`: colour, name, reset, spacing,
/// and a line break when `index` is a multiple of the entries per line.
pub open spec fn cell(e: EntryView, index: nat, items_per_line: nat, spacing: nat) -> Seq<char> {
    color_of(e.kind, e.hidden) + e.name + reset_color() + spaces(spacing) + if breaks_after(
        index,
        items_per_line,
    ) {
        seq!['\n']
    } else {
        Seq::empty()
    }
}

/// The printed cells, one for each entry but the first, which is never printed.
pub open spec fn cells(es: Seq<EntryView>, items_per_line: nat, spacing: nat) -> Seq<Seq<char>> {
    if es.len() == 0 {
        Seq::empty()
    } else {
        Seq::new(
            (es.len() - 1) as nat,
            |j: int| cell(es[j + 1], (j + 1) as nat, items_per_line, spacing),
        )
    }
}

/// The cells written one after another.
pub open spec fn joined(ss: Seq<Seq<char>>) -> Seq<char>
    decreases ss.len(),
{
    if ss.len() == 0 {
        Seq::empty()
    } else {
        joined(ss.drop_last()) + ss.last()
    }
}

/// The printed text: the cells, then a closing line break.
pub open spec fn rendered(es: Seq<EntryView>, items_per_line: nat, spacing: nat) -> Seq<char> {
    joined(cells(es, items_per_line, spacing)) + seq!['\n']
}

/// The column width for entries `es` under `cfg`.
pub fn column_width_of(es: &Vec<Entry>, cfg: &LayoutConfig) -> (r: usize)
    ensures
        r == column_width(entry_views(es@), *cfg),
{
    if cfg.truncate {
        return cfg.truncate_at;
    }
    let mut w: usize = cfg.truncate_at;
    let mut i: usize = 0;
    while i < es.len()
        invariant
            i <= es@.len(),
            !cfg.truncate,
            w == widest_visible(entry_views(es@).take(i as int), cfg.truncate_at as nat),
        decreases es@.len() - i,
    {
        assert(entry_views(es@).take(i + 1).drop_last() =~= entry_views(es@).take(i as int));
        if !es[i].hidden && es[i].name.len() > w {
            w = es[i].name.len();
        }
        i = i + 1;
    }
    assert(entry_views(es@).take(i as int) =~= entry_views(es@));
    w
}

/// `name` padded with spaces to `width` characters.
pub fn pad_name(name: &Vec<char>, width: usize) -> (r: Vec<char>)
    ensures
        r@ == padded(name@, width as nat),
{
    let mut r = copy_chars(name);
    if name.len() < width {
        append_spaces(&mut r, width - name.len());
    }
    r
}

/// Every entry with its name padded to `width`.
pub fn pad_entries(es: &Vec<Entry>, width: usize) -> (r: Vec<Entry>)
    ensures
        entry_views(r@) == entry_views(es@).map_values(|e: EntryView| padded_entry(e, width as nat)),
{
    let mut r: Vec<Entry> = Vec::new();
    let mut i: usize = 0;
    while i < es.len()
        invariant
            i <= es@.len(),
            entry_views(r@) == entry_views(es@).take(i as int).map_values(
                |e: EntryView| padded_entry(e, width as nat),
            ),
        decreases es@.len() - i,
    {
        let name = pad_name(&es[i].name, width);
        let ghost before = r@;
        r.push(Entry { name, kind: es[i].kind, hidden: es[i].hidden });
        assert(entry_views(r@) =~= entry_views(before).push(r@[i as int]@));
        assert(entry_views(es@).take(i + 1) =~= entry_views(es@).take(i as int).push(es@[i as int]@));
        i = i + 1;
        assert(entry_views(r@) =~= entry_views(es@).take(i as int).map_values(
            |e: EntryView| padded_entry(e, width as nat),
        ));
    }
    assert(entry_views(es@).take(i as int) =~= entry_views(es@));
    r
}

/// Entries per line for a terminal `columns` characters wide.
pub fn items_per_line(cfg: &LayoutConfig, width: usize, columns: usize) -> (r: usize)
    ensures
        r == items_per_line_of(*cfg, width as nat, columns as nat),
{
    if cfg.items_explicit {
        cfg.items
    } else if width > usize::MAX - cfg.spacing {
        assert(columns as nat / (width + cfg.spacing) as nat == 0) by (nonlinear_arith)
            requires
                columns < width + cfg.spacing,
        ;
        0
    } else if width + cfg.spacing == 0 {
        0
    } else {
        columns / (width + cfg.spacing)
    }
}

/// The colour sequence for an entry.
pub fn color_code(kind: EntryKind, hidden: bool) -> (r: Vec<char>)
    ensures
        r@ == color_of(kind, hidden),
{
    let r = if hidden {
        match kind {
            EntryKind::Directory => vec!['\x1b', '[', '0', ';', '3', '4', 'm'],
            EntryKind::Executable => vec!['\x1b', '[', '0', ';', '3', '3', 'm'],
            EntryKind::PlainFile => vec!['\x1b', '[', '1', ';', '3', '0', 'm'],
        }
    } else {
        match kind {
            EntryKind::Directory => vec!['\x1b', '[', '1', ';', '3', '4', 'm'],
            EntryKind::Executable => vec!['\x1b', '[', '1', ';', '3', '3', 'm'],
            EntryKind::PlainFile => vec!['\x1b', '[', '0', ';', '3', '7', 'm'],
        }
    };
    assert(r@ =~= color_of(kind, hidden));
    r
}

/// The text printed for `es`: every entry but the first, each coloured and
/// followed by `spacing` blanks, a line break after each entry whose index
/// is a multiple of `items_per_line`, and a closing line break.
pub fn render(es: &Vec<Entry>, items_per_line: usize, spacing: usize) -> (r: Vec<char>)
    ensures
        r@ == rendered(entry_views(es@), items_per_line as nat, spacing as nat),
{
    let ghost cs = cells(entry_views(es@), items_per_line as nat, spacing as nat);
    let mut out: Vec<char> = Vec::new();
    let mut i: usize = 1;
    while i < es.len()
        invariant
            1 <= i,
            i == 1 || i <= es@.len(),
            cs == cells(entry_views(es@), items_per_line as nat, spacing as nat),
            out@ == joined(cs.take(i - 1)),
        decreases es@.len() - i,
    {
        let ghost before = out@;
        let color = color_code(es[i].kind, es[i].hidden);
        append_chars(&mut out, &color);
        append_chars(&mut out, &es[i].name);
        let reset: Vec<char> = vec!['\x1b', '[', '0', ';', '3', '7', 'm'];
        append_chars(&mut out, &reset);
        append_spaces(&mut out, spacing);
        if items_per_line != 0 && i % items_per_line == 0 {
            out.push('\n');
        }
        proof {
            let c = cell(entry_views(es@)[i as int], i as nat, items_per_line as nat, spacing as nat);
            assert(reset@ =~= reset_color());
            assert(cs[i - 1] == c);
            assert(out@ =~= before + c);
            assert(cs.take(i as int).drop_last() =~= cs.take(i - 1));
        }
        i = i + 1;
    }
    assert(cs.take(i - 1) =~= cs);
    out.push('\n');
    out
}

/// The listed entries of `children`, each padded to the common column width.
pub open spec fn listing_entries(children: Seq<Child>, show_hidden: bool, cfg: LayoutConfig) -> Seq<
    EntryView,
> {
    let es = listed_entries(children, show_hidden, cfg);
    let w = column_width(es, cfg);
    es.map_values(|e: EntryView| padded_entry(e, w))
}

/// The entries per line of the listing of `children`.
pub open spec fn listing_items_per_line(
    children: Seq<Child>,
    show_hidden: bool,
    cfg: LayoutConfig,
    columns: nat,
) -> nat {
    items_per_line_of(
        cfg,
        column_width(listed_entries(children, show_hidden, cfg), cfg),
        columns,
    )
}

/// The cells printed for `children` on a terminal `columns` characters wide.
pub open spec fn listing_cells(
    children: Seq<Child>,
    show_hidden: bool,
    cfg: LayoutConfig,
    columns: nat,
) -> Seq<Seq<char>> {
    cells(
        listing_entries(children, show_hidden, cfg),
        listing_items_per_line(children, show_hidden, cfg, columns),
        cfg.spacing as nat,
    )
}

/// The whole listing of `children` for a terminal `columns` characters wide.
pub open spec fn listing_text(
    children: Seq<Child>,
    show_hidden: bool,
    cfg: LayoutConfig,
    columns: nat,
) -> Seq<char> {
    joined(listing_cells(children, show_hidden, cfg, columns)) + seq!['\n']
}

/// Lists `children`: classifies and filters them, pads every name to the
/// common column width, and renders the result for a terminal `columns`
/// characters wide.
pub fn listing(children: &Vec<Child>, show_hidden: bool, cfg: &LayoutConfig, columns: usize) -> (r:
    Vec<char>)
    ensures
        r@ == listing_text(children@, show_hidden, *cfg, columns as nat),
{
    let es = classify(children, show_hidden, cfg);
    let w = column_width_of(&es, cfg);
    let padded_es = pad_entries(&es, w);
    let ipl = items_per_line(cfg, w, columns);
    render(&padded_es, ipl, cfg.spacing)
}

/// The printed entries number one fewer than the listed children, or none
/// when no child is listed: the first entry is never printed.
pub proof fn lemma_printed_count(
    children: Seq<Child>,
    show_hidden: bool,
    cfg: LayoutConfig,
    columns: nat,
)
    ensures
        listing_cells(children, show_hidden, cfg, columns).len() == if listed_count(
            children,
            show_hidden,
            cfg,
        ) >= 1 {
            listed_count(children, show_hidden, cfg) - 1
        } else {
            0
        },
{
    lemma_listed_len(children, show_hidden, cfg);
}

/// Facts on the fold that finds the widest visible name: it is at least
/// `start` and at least every visible name, and it is `start` or the length
/// of some visible name.
pub proof fn lemma_widest_visible(es: Seq<EntryView>, start: nat)
    ensures
        widest_visible(es, start) >= start,
        forall|j: int|
            0 <= j < es.len() && !(#[trigger] es[j]).hidden ==> es[j].name.len() <= widest_visible(
                es,
                start,
            ),
        widest_visible(es, start) == start || exists|j: int|
            0 <= j < es.len() && !(#[trigger] es[j]).hidden && es[j].name.len() == widest_visible(
                es,
                start,
            ),
    decreases es.len(),
{
    if es.len() > 0 {
        let init = es.drop_last();
        lemma_widest_visible(init, start);
        assert forall|j: int| 0 <= j < init.len() implies #[trigger] init[j] == es[j] by {}
        let w = widest_visible(es, start);
        assert forall|j: int| 0 <= j < es.len() && !(#[trigger] es[j]).hidden implies es[j].name.len()
            <= w by {
            if j < init.len() {
                assert(init[j] == es[j]);
            }
        }
        if w != start && w == widest_visible(init, start) {
            let j = choose|j: int|
                0 <= j < init.len() && !(#[trigger] init[j]).hidden && init[j].name.len() == w;
            assert(es[j] == init[j]);
        }
        if w != widest_visible(init, start) {
            assert(!es[es.len() - 1].hidden && es[es.len() - 1].name.len() == w);
        }
    }
}

/// Each listed entry's name is cut to the name limit, and it is hidden
/// exactly when that name begins with a period.
pub proof fn lemma_listed_names(cs: Seq<Child>, show_hidden: bool, cfg: LayoutConfig)
    ensures
        forall|j: int|
            0 <= j < listed_entries(cs, show_hidden, cfg).len() ==> (#[trigger] listed_entries(
                cs,
                show_hidden,
                cfg,
            )[j]).name.len() <= name_limit(cfg),
    decreases cs.len(),
{
    if cs.len() > 0 {
        lemma_listed_names(cs.drop_last(), show_hidden, cfg);
    }
}

/// After padding every printed name has the same length, the column width.
/// With names cut, that width is `truncate_at`; otherwise it is at least
/// every visible name and is either `truncate_at` or the longest visible
/// name. Hidden names longer than the width are left out: padding keeps
/// them whole.
pub proof fn lemma_uniform_padding(children: Seq<Child>, show_hidden: bool, cfg: LayoutConfig)
    requires
        forall|j: int|
            0 <= j < listed_entries(children, show_hidden, cfg).len() && (
            #[trigger] listed_entries(children, show_hidden, cfg)[j]).hidden
                ==> listed_entries(children, show_hidden, cfg)[j].name.len() <= column_width(
                listed_entries(children, show_hidden, cfg),
                cfg,
            ),
    ensures
        ({
            let es = listed_entries(children, show_hidden, cfg);
            let w = column_width(es, cfg);
            &&& forall|j: int|
                0 <= j < listing_entries(children, show_hidden, cfg).len() ==> (
                #[trigger] listing_entries(children, show_hidden, cfg)[j]).name.len() == w
            &&& cfg.truncate ==> w == cfg.truncate_at
            &&& !cfg.truncate ==> forall|j: int|
                0 <= j < es.len() && !(#[trigger] es[j]).hidden ==> es[j].name.len() <= w
            &&& !cfg.truncate ==> (w == cfg.truncate_at || exists|j: int|
                0 <= j < es.len() && !(#[trigger] es[j]).hidden && es[j].name.len() == w)
        }),
{
    let es = listed_entries(children, show_hidden, cfg);
    let w = column_width(es, cfg);
    lemma_listed_names(children, show_hidden, cfg);
    lemma_widest_visible(es, cfg.truncate_at as nat);
    let ps = listing_entries(children, show_hidden, cfg);
    assert forall|j: int| 0 <= j < ps.len() implies (#[trigger] ps[j]).name.len() == w by {
        assert(es[j].name.len() <= w);
        assert(ps[j] == padded_entry(es[j], w));
    }
}

/// With the entries per line taken from the terminal width `columns` and a
/// column of `width + spacing` characters, a line ends after exactly those
/// printed entries whose index (the first printed one being 1) is a
/// multiple of `columns / (width + spacing)`; when that is zero no line
/// ends before the closing break.
pub proof fn lemma_column_wrap(children: Seq<Child>, show_hidden: bool, cfg: LayoutConfig, columns: nat)
    requires
        !cfg.items_explicit,
    ensures
        ({
            let x: nat = column_width(listed_entries(children, show_hidden, cfg), cfg) + cfg.spacing as nat;
            let per_line: nat = columns / x;
            let cs = listing_cells(children, show_hidden, cfg, columns);
            forall|j: int|
                0 <= j < cs.len() ==> ((#[trigger] cs[j]).last() == '\n' <==> (x != 0 && per_line
                    != 0 && ((j + 1) as nat) % per_line == 0))
        }),
{
    let es = listing_entries(children, show_hidden, cfg);
    let ipl = listing_items_per_line(children, show_hidden, cfg, columns);
    let cs = listing_cells(children, show_hidden, cfg, columns);
    assert forall|j: int| 0 <= j < cs.len() implies ((#[trigger] cs[j]).last() == '\n' <==> (
    breaks_after((j + 1) as nat, ipl))) by {
        let e = es[j + 1];
        let body = color_of(e.kind, e.hidden) + e.name + reset_color() + spaces(
            cfg.spacing as nat,
        );
        assert(cs[j] == cell(e, (j + 1) as nat, ipl, cfg.spacing as nat));
        if breaks_after((j + 1) as nat, ipl) {
            assert(cs[j] =~= body + seq!['\n']);
        } else {
            assert(cs[j] =~= body);
            if cfg.spacing > 0 {
                assert(body.last() == ' ');
            } else {
                assert(body.last() == 'm');
            }
        }
    }
}

} // verus!
