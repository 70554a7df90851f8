use vstd::prelude::*;
use crate::config::{
    ConfigError, LayoutConfig, builtin, builtin_config, default_text, first_run_config,
    lemma_default_text_reads_back, parse_config, parsed_config, written_defaults,
};
use crate::entry::Child;
use crate::layout::listing_text;
use crate::text::copy_chars;

verus! {

/// What the command line asks for.
pub struct Options {
    /// Read (or create) the settings file; otherwise use the built-in settings.
    pub use_config: bool,
    /// List hidden entries too.
    pub show_hidden: bool,
    /// Report the elapsed time after the listing.
    pub timed: bool,
    /// The directory to list; the current one when absent.
    pub path: Option<Vec<char>>,
}

/// The argument that turns the settings file off.
pub open spec fn flag_nc() -> Seq<char> {
    seq!['-', 'n', 'c']
}

/// The argument that shows hidden entries.
pub open spec fn flag_a() -> Seq<char> {
    seq!['-', 'a']
}

/// The argument that asks for the elapsed time.
pub open spec fn flag_t() -> Seq<char> {
    seq!['-', 't']
}

/// The last argument that is no flag, if any.
pub open spec fn last_path(args: Seq<Seq<char>>) -> Option<Seq<char>>
    decreases args.len(),
{
    if args.len() == 0 {
        None
    } else {
        let a = args.last();
        if a == flag_nc() || a == flag_a() || a == flag_t() {
            last_path(args.drop_last())
        } else {
            Some(a)
        }
    }
}

/// The characters of an optional argument.
pub open spec fn option_view(p: Option<Vec<char>>) -> Option<Seq<char>> {
    match p {
        Some(v) => Some(v@),
        None => None,
    }
}

/// Whether two character lists are equal.
fn same_chars(a: &Vec<char>, b: &Vec<char>) -> (r: bool)
    ensures
        r == (a@ == b@),
{
    if a.len() != b.len() {
        return false;
    }
    let mut i: usize = 0;
    while i < a.len()
        invariant
            a@.len() == b@.len(),
            i <= a@.len(),
            forall|j: int| 0 <= j < i ==> a@[j] == b@[j],
        decreases a@.len() - i,
    {
        if a[i] != b[i] {
            return false;
        }
        i = i + 1;
    }
    assert(a@ =~= b@);
    true
}

/// Reads the arguments (the program name excluded): `-nc` turns the settings
/// file off, `-a` shows hidden entries, `-t` asks for the elapsed time, and
/// any other argument names the directory, the last one winning.
pub fn parse_args(args: &Vec<Vec<char>>) -> (r: Options)
    ensures
        r.use_config == !args@.map_values(|a: Vec<char>| a@).contains(flag_nc()),
        r.show_hidden == args@.map_values(|a: Vec<char>| a@).contains(flag_a()),
        r.timed == args@.map_values(|a: Vec<char>| a@).contains(flag_t()),
        option_view(r.path) == last_path(args@.map_values(|a: Vec<char>| a@)),
{
    let ghost views = args@.map_values(|a: Vec<char>| a@);
    let nc: Vec<char> = vec!['-', 'n', 'c'];
    let fa: Vec<char> = vec!['-', 'a'];
    let ft: Vec<char> = vec!['-', 't'];
    assert(nc@ =~= flag_nc());
    assert(fa@ =~= flag_a());
    assert(ft@ =~= flag_t());
    let mut opts = Options { use_config: true, show_hidden: false, timed: false, path: None };
    let mut i: usize = 0;
    while i < args.len()
        invariant
            i <= args@.len(),
            views == args@.map_values(|a: Vec<char>| a@),
            nc@ == flag_nc(),
            fa@ == flag_a(),
            ft@ == flag_t(),
            opts.use_config == !views.take(i as int).contains(flag_nc()),
            opts.show_hidden == views.take(i as int).contains(flag_a()),
            opts.timed == views.take(i as int).contains(flag_t()),
            option_view(opts.path) == last_path(views.take(i as int)),
        decreases args@.len() - i,
    {
        let ghost prev = views.take(i as int);
        let ghost next = views.take(i + 1);
        assert(next =~= prev.push(args@[i as int]@));
        assert(next.drop_last() =~= prev);
        assert forall|s: Seq<char>| next.contains(s) <==> (prev.contains(s) || s == args@[i as int]@) by {
            if next.contains(s) {
                let j = choose|j: int| 0 <= j < next.len() && next[j] == s;
                if j < i {
                    assert(prev[j] == s);
                }
            }
            if prev.contains(s) {
                let j = choose|j: int| 0 <= j < prev.len() && prev[j] == s;
                assert(next[j] == s);
            }
            if s == args@[i as int]@ {
                assert(next[i as int] == s);
            }
        }
        if same_chars(&args[i], &nc) {
            opts.use_config = false;
        } else if same_chars(&args[i], &fa) {
            opts.show_hidden = true;
        } else if same_chars(&args[i], &ft) {
            opts.timed = true;
        } else {
            opts.path = Some(copy_chars(&args[i]));
        }
        i = i + 1;
    }
    assert(views.take(i as int) =~= views);
    opts
}

/// The settings a run uses: the built-in ones when the settings file is
/// off; those the file's text gives when it exists; and, when it does not,
/// those of the default file that the run then writes.
pub open spec fn settings_of(use_config: bool, file_text: Option<Seq<char>>) -> Result<
    LayoutConfig,
    ConfigError,
> {
    if !use_config {
        Ok(builtin())
    } else {
        match file_text {
            Some(t) => parsed_config(t),
            None => Ok(written_defaults()),
        }
    }
}

/// Chooses the settings of a run from the command line and the settings
/// file's text, `None` when there is no such file.
pub fn settings_for(use_config: bool, file_text: &Option<Vec<char>>) -> (r: Result<
    LayoutConfig,
    ConfigError,
>)
    ensures
        r == settings_of(use_config, option_view(*file_text)),
{
    if !use_config {
        Ok(builtin_config())
    } else {
        match file_text {
            Some(t) => parse_config(t),
            None => Ok(first_run_config()),
        }
    }
}

/// A run that finds no settings file uses the settings of the default file
/// it writes, so a later run that reads that file uses the same settings and,
/// on the same directory and terminal, prints the same listing.
pub proof fn lemma_runs_agree(children: Seq<Child>, show_hidden: bool, columns: nat)
    ensures
        settings_of(true, None) == settings_of(true, Some(default_text())),
        settings_of(true, None) == Ok::<LayoutConfig, ConfigError>(written_defaults()),
        listing_text(children, show_hidden, settings_of(true, None)->Ok_0, columns) == listing_text(
            children,
            show_hidden,
            settings_of(true, Some(default_text()))->Ok_0,
            columns,
        ),
{
    lemma_default_text_reads_back();
}

} // verus!
