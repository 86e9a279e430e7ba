//! Command-line arguments: which ports were asked for.
use vstd::prelude::*;

use crate::list::lemma_take_one;
use crate::model::origin::{key_of, KeyView, PortKey};
use crate::order::Duplicate;
use crate::sorted::SortedSet;
use crate::text::{begins_with, glue, glue3, lines, owned, same, split_lines, starts, strip};
use crate::text::{strip_prefix, trim, views, Str};

verus! {

/// Why no ports could be made out.
#[derive(Debug, PartialEq, Eq)]
pub enum RootError {
    /// An entry that is no `category/name[@flavor]`.
    Malformed(String),
    /// No entry at all.
    Nothing,
}

pub enum RootErrorView {
    Malformed(Str),
    Nothing,
}

impl View for RootError {
    type V = RootErrorView;

    open spec fn view(&self) -> RootErrorView {
        match *self {
            RootError::Malformed(s) => RootErrorView::Malformed(s@),
            RootError::Nothing => RootErrorView::Nothing,
        }
    }
}

/// The lines of several lists, in order.
pub open spec fn list_lines(lists: Seq<Str>) -> Seq<Str>
    decreases lists.len(),
{
    if lists.len() == 0 {
        Seq::empty()
    } else {
        list_lines(lists.drop_last()) + lines(lists.last())
    }
}

/// The ports that entries name: blank entries and `#` comments are skipped, a
/// port named before is dropped, and the first malformed entry is the error.
pub open spec fn named_ports(entries: Seq<Str>) -> Result<Seq<KeyView>, Str>
    decreases entries.len(),
{
    if entries.len() == 0 {
        Ok(Seq::empty())
    } else {
        match named_ports(entries.drop_last()) {
            Err(e) => Err(e),
            Ok(before) => {
                let t = trim(entries.last());
                if t.len() == 0 || starts(t, "#"@) {
                    Ok(before)
                } else {
                    match key_of(t) {
                        Some(k) => if before.contains(k) {
                            Ok(before)
                        } else {
                            Ok(before.push(k))
                        },
                        None => Err(t),
                    }
                }
            },
        }
    }
}

/// The ports asked for by arguments and lists.
pub open spec fn roots_of(origins: Seq<Str>, lists: Seq<Str>) -> Result<
    Seq<KeyView>,
    RootErrorView,
> {
    match named_ports(origins + list_lines(lists)) {
        Err(e) => Err(RootErrorView::Malformed(e)),
        Ok(ks) => if ks.len() == 0 {
            Err(RootErrorView::Nothing)
        } else {
            Ok(ks)
        },
    }
}

/// The view of collected roots.
pub open spec fn roots_view(r: Result<Vec<PortKey>, RootError>) -> Result<
    Seq<KeyView>,
    RootErrorView,
> {
    match r {
        Ok(v) => Ok(views(v@)),
        Err(e) => Err(e@),
    }
}

/// No port is asked for twice.
pub proof fn law_roots_distinct(entries: Seq<Str>)
    ensures
        named_ports(entries) matches Ok(ks) ==> ks.no_duplicates(),
    decreases entries.len(),
{
    if entries.len() > 0 {
        law_roots_distinct(entries.drop_last());
    }
}

/// Every port that is named is asked for.
pub proof fn law_roots_complete(entries: Seq<Str>, i: int)
    requires
        0 <= i < entries.len(),
        trim(entries[i]).len() > 0,
        !starts(trim(entries[i]), "#"@),
    ensures
        named_ports(entries) matches Ok(ks) ==> key_of(trim(entries[i])) matches Some(k)
            && ks.contains(k),
    decreases entries.len(),
{
    let d = entries.drop_last();
    if let Ok(ks) = named_ports(entries) {
        let before = named_ports(d)->Ok_0;
        if i < d.len() {
            assert(d[i] == entries[i]);
            law_roots_complete(d, i);
            let k = key_of(trim(entries[i]))->0;
            let j = choose|j: int| 0 <= j < before.len() && before[j] == k;
            assert(ks[j] == k);
        } else {
            let k = key_of(trim(entries.last()))->0;
            if !before.contains(k) {
                assert(ks[ks.len() - 1] == k);
            }
        }
    }
}

/// Merge positional origins and list files (given by their texts) into parsed
/// keys. Duplicates across files and arguments are dropped.
pub fn collect_roots(origins: &Vec<String>, lists: &Vec<String>) -> (r: Result<
    Vec<PortKey>,
    RootError,
>)
    ensures
        roots_view(r) == roots_of(views(origins@), views(lists@)),
{
    broadcast use {crate::text::views_push, crate::text::views_empty};

    let mut entries: Vec<String> = crate::text::copy_list(origins);
    let ghost ls = views(lists@);
    let mut i: usize = 0;
    assert(ls.take(0) =~= Seq::<Str>::empty());
    assert(views(entries@) =~= views(origins@) + list_lines(ls.take(0)));
    while i < lists.len()
        invariant
            i <= lists@.len(),
            ls == views(lists@),
            views(entries@) == views(origins@) + list_lines(ls.take(i as int)),
        decreases lists@.len() - i,
    {
        proof {
            lemma_take_one(ls, i as int);
            assert(ls[i as int] == lists@[i as int]@);
        }
        let mut more = split_lines(lists[i].as_str());
        let ghost a = views(entries@);
        let ghost b = views(more@);
        entries.append(&mut more);
        assert(views(entries@) =~= a + b);
        assert(views(entries@) =~= views(origins@) + list_lines(ls.take(i + 1)));
        i = i + 1;
    }
    assert(ls.take(lists@.len() as int) =~= ls);
    let ghost v = views(entries@);
    let mut keys: Vec<PortKey> = Vec::new();
    let mut seen: SortedSet<PortKey> = SortedSet::new();
    let mut i: usize = 0;
    assert(v.take(0) =~= Seq::<Str>::empty());
    while i < entries.len()
        invariant
            i <= entries@.len(),
            v == views(entries@),
            v == views(origins@) + list_lines(views(lists@)),
            named_ports(v.take(i as int)) == Ok::<Seq<KeyView>, Str>(views(keys@)),
            seen@ == views(keys@).to_set(),
        decreases entries@.len() - i,
    {
        proof {
            lemma_take_one(v, i as int);
            assert(v[i as int] == entries@[i as int]@);
        }
        let t = strip(entries[i].as_str());
        i = i + 1;
        if t.as_str().is_empty() || begins_with(t.as_str(), "#") {
            assert(named_ports(v.take(i as int)) == Ok::<Seq<KeyView>, Str>(views(keys@)));
            continue;
        }
        match PortKey::parse(t.as_str()) {
            Some(k) => {
                let ghost was = views(keys@);
                assert(key_of(t@) == Some(k@));
                assert(seen@.contains(k@) == was.contains(k@));
                if seen.insert(k.duplicate()) {
                    keys.push(k);
                    assert(views(keys@) =~= was.push(k@));
                    assert(named_ports(v.take(i as int)) == Ok::<Seq<KeyView>, Str>(views(keys@)));
                    assert(views(keys@).to_set() =~= was.to_set().insert(k@)) by {
                        assert(views(keys@).take(was.len() as int) =~= was);
                        assert(views(keys@).take((was.len() + 1) as int) =~= views(keys@));
                        crate::sorted::lemma_take_set(views(keys@), was.len() as int);
                    }
                } else {
                    assert(was.to_set().insert(k@) =~= was.to_set());
                }
            },
            None => {
                proof {
                    lemma_first_error(v, i as int);
                }
                return Err(RootError::Malformed(t));
            },
        }
    }
    assert(v.take(entries@.len() as int) =~= v);
    if keys.len() == 0 {
        return Err(RootError::Nothing);
    }
    Ok(keys)
}

/// An error stays the error however many entries follow.
proof fn lemma_first_error(v: Seq<Str>, n: int)
    requires
        0 <= n <= v.len(),
        named_ports(v.take(n)) is Err,
    ensures
        named_ports(v) == named_ports(v.take(n)),
    decreases v.len() - n,
{
    if n < v.len() {
        lemma_take_one(v, n);
        lemma_first_error(v, n + 1);
    } else {
        assert(v.take(n) =~= v);
    }
}

// ---------------------------------------------------------------------
// Bare origins
// ---------------------------------------------------------------------

/// Origins and list files, or why an argument is refused.
pub type RawSplit = Result<(Seq<Str>, Seq<Str>), Str>;

/// Whether an argument introduces a list file.
pub open spec fn is_file_flag(arg: Str) -> bool {
    arg == "-f"@ || arg == "--file"@
}

/// The split with one more origin or list file in front.
pub open spec fn in_front(origins: Seq<Str>, files: Seq<Str>, rest: RawSplit) -> RawSplit {
    match rest {
        Ok((o, f)) => Ok((origins + o, files + f)),
        Err(e) => Err(e),
    }
}

/// The origins and list files of arguments from an index on.
pub open spec fn split_from(raw: Seq<Str>, i: int) -> RawSplit
    decreases raw.len() - i,
{
    if i < 0 || i >= raw.len() {
        Ok((Seq::empty(), Seq::empty()))
    } else if is_file_flag(raw[i]) {
        if i + 1 < raw.len() {
            in_front(Seq::empty(), seq![raw[i + 1]], split_from(raw, i + 2))
        } else {
            Err(raw[i] + " needs a pkglist file argument"@)
        }
    } else if starts(raw[i], "--file="@) {
        in_front(
            Seq::empty(),
            seq![raw[i].skip("--file="@.len() as int)],
            split_from(raw, i + 1),
        )
    } else if starts(raw[i], "-"@) {
        Err(
            "unexpected flag "@ + raw[i]
                + " after port origins; put flags before the first origin"@,
        )
    } else {
        in_front(seq![raw[i]], Seq::empty(), split_from(raw, i + 1))
    }
}

/// The view of split arguments.
pub open spec fn split_view(r: Result<(Vec<String>, Vec<String>), String>) -> RawSplit {
    match r {
        Ok((o, f)) => Ok((views(o@), views(f@))),
        Err(e) => Err(e@),
    }
}

/// Split an external-subcommand argument vector into origins and -f/--file
/// values (flags are no longer parsed once the first bare origin appears).
pub fn split_raw_origins(raw: &Vec<String>) -> (r: Result<(Vec<String>, Vec<String>), String>)
    ensures
        split_view(r) == split_from(views(raw@), 0),
{
    broadcast use {crate::text::views_push, crate::text::views_empty};

    let ghost v = views(raw@);
    let mut origins: Vec<String> = Vec::new();
    let mut files: Vec<String> = Vec::new();
    let mut i: usize = 0;
    proof {
        let r = split_from(v, 0);
        assert(in_front(Seq::empty(), Seq::empty(), r) == r) by {
            if let Ok((o, f)) = r {
                assert(Seq::<Str>::empty() + o =~= o);
                assert(Seq::<Str>::empty() + f =~= f);
            }
        }
    }
    while i < raw.len()
        invariant
            i <= raw@.len(),
            v == views(raw@),
            split_from(v, 0) == in_front(views(origins@), views(files@), split_from(v, i as int)),
        decreases raw@.len() - i,
    {
        let arg = raw[i].as_str();
        let ghost o0 = views(origins@);
        let ghost f0 = views(files@);
        assert(v[i as int] == arg@);
        if same(arg, "-f") || same(arg, "--file") {
            if i + 1 >= raw.len() {
                return Err(glue(arg, " needs a pkglist file argument"));
            }
            assert(v[i + 1] == raw@[i + 1]@);
            let p = raw[i + 1].clone();
            files.push(p);
            proof {
                lemma_in_front(o0, f0, Seq::empty(), seq![p@], split_from(v, i + 2));
                assert(o0 + Seq::<Str>::empty() =~= o0);
                assert(f0 + seq![p@] =~= views(files@));
            }
            i = i + 2;
        } else if let Some(path) = strip_prefix(arg, "--file=") {
            files.push(path);
            proof {
                lemma_in_front(o0, f0, Seq::empty(), seq![path@], split_from(v, i + 1));
                assert(o0 + Seq::<Str>::empty() =~= o0);
                assert(f0 + seq![path@] =~= views(files@));
            }
            i = i + 1;
        } else if begins_with(arg, "-") {
            return Err(
                glue3(
                    "unexpected flag ",
                    arg,
                    " after port origins; put flags before the first origin",
                ),
            );
        } else {
            origins.push(raw[i].clone());
            proof {
                lemma_in_front(o0, f0, seq![arg@], Seq::empty(), split_from(v, i + 1));
                assert(o0 + seq![arg@] =~= views(origins@));
                assert(f0 + Seq::<Str>::empty() =~= f0);
            }
            i = i + 1;
        }
    }
    proof {
        assert(views(origins@) + Seq::<Str>::empty() =~= views(origins@));
        assert(views(files@) + Seq::<Str>::empty() =~= views(files@));
    }
    Ok((origins, files))
}

proof fn lemma_in_front(
    o1: Seq<Str>,
    f1: Seq<Str>,
    o2: Seq<Str>,
    f2: Seq<Str>,
    rest: RawSplit,
)
    ensures
        in_front(o1, f1, in_front(o2, f2, rest)) == in_front(o1 + o2, f1 + f2, rest),
{
    if let Ok((o, f)) = rest {
        assert(o1 + (o2 + o) =~= o1 + o2 + o);
        assert(f1 + (f2 + f) =~= f1 + f2 + f);
    }
}

// ---------------------------------------------------------------------
// Commands
// ---------------------------------------------------------------------

/// Port origins (category/name[@flavor]).
#[derive(Debug)]
pub struct RootsArgs {
    pub origins: Vec<String>,
}

#[derive(Debug)]
pub struct TuiArgs {
    pub roots: RootsArgs,
    /// Read keys from a line protocol on stdin, without a terminal.
    pub drive: bool,
}

#[derive(Debug)]
pub struct ScanArgs {
    pub roots: RootsArgs,
    pub json: bool,
}

#[derive(Debug)]
pub struct SyncArgs {
    pub roots: RootsArgs,
    /// Show what would be written without touching anything.
    pub dry_run: bool,
}

#[derive(Debug)]
pub struct CleanArgs {
    pub roots: RootsArgs,
    /// Also drop files that repeat what defaults and make.conf dictate.
    pub redundant: bool,
    /// Also drop files that nothing in the closure of the list reads.
    pub unused: bool,
    pub dry_run: bool,
}

#[derive(Debug)]
pub enum Command {
    /// Interactive TUI to review and edit options across the closure.
    Tui(TuiArgs),
    /// Scan the dependency closure and print each port's option status.
    Scan(ScanArgs),
    /// Refresh options files non-interactively.
    Sync(SyncArgs),
    /// Garbage-collect the options dir.
    Clean(CleanArgs),
    /// Bare origins: the TUI over them.
    Origins(Vec<String>),
}

/// The command line, as far as it says what to do.
#[derive(Debug)]
pub struct Cli {
    /// Files with one origin per line (poudriere pkglist format).
    pub files: Vec<String>,
    pub command: Option<Command>,
}

/// What to do.
#[derive(Clone, Copy, Debug, PartialEq, Eq, Structural)]
pub enum Action {
    Tui { drive: bool },
    Scan { json: bool },
    Sync { dry_run: bool },
    Clean { redundant: bool, unused: bool, dry_run: bool },
}

/// What to do, and for which ports.
#[derive(Debug)]
pub struct Request {
    pub action: Action,
    pub origins: Vec<String>,
    pub files: Vec<String>,
}

#[verifier::ext_equal]
pub struct RequestView {
    pub action: Action,
    pub origins: Seq<Str>,
    pub files: Seq<Str>,
}

impl View for Request {
    type V = RequestView;

    open spec fn view(&self) -> RequestView {
        RequestView {
            action: self.action,
            origins: views(self.origins@),
            files: views(self.files@),
        }
    }
}

/// Whether a list of ports goes with a clean: one is needed exactly where
/// unused files are asked for, and would be ignored otherwise.
pub open spec fn clean_refusal(unused: bool, origins: Seq<Str>, files: Seq<Str>) -> Option<Str> {
    let listed = origins.len() > 0 || files.len() > 0;
    if unused && !listed {
        Some("--unused needs a package list: origins or -f pkglist"@)
    } else if !unused && listed {
        Some("a package list only goes with clean --unused"@)
    } else {
        None
    }
}

/// What a command line asks for.
pub open spec fn request_of(cli: Cli) -> Result<RequestView, Str> {
    let files = views(cli.files@);
    match cli.command {
        None => if files.len() == 0 {
            Err(
                "no ports given; try `optique -z <set> category/port…` or `optique -f pkglist`"@,
            )
        } else {
            Ok(
                RequestView {
                    action: Action::Tui { drive: false },
                    origins: Seq::empty(),
                    files,
                },
            )
        },
        Some(Command::Origins(raw)) => match split_from(views(raw@), 0) {
            Ok((origins, more)) => Ok(
                RequestView { action: Action::Tui { drive: false }, origins, files: files + more },
            ),
            Err(e) => Err(e),
        },
        Some(Command::Tui(args)) => Ok(
            RequestView {
                action: Action::Tui { drive: args.drive },
                origins: views(args.roots.origins@),
                files,
            },
        ),
        Some(Command::Scan(args)) => Ok(
            RequestView {
                action: Action::Scan { json: args.json },
                origins: views(args.roots.origins@),
                files,
            },
        ),
        Some(Command::Sync(args)) => Ok(
            RequestView {
                action: Action::Sync { dry_run: args.dry_run },
                origins: views(args.roots.origins@),
                files,
            },
        ),
        Some(Command::Clean(args)) => {
            let origins = views(args.roots.origins@);
            match clean_refusal(args.unused, origins, files) {
                Some(e) => Err(e),
                None => Ok(
                    RequestView {
                        action: Action::Clean {
                            redundant: args.redundant,
                            unused: args.unused,
                            dry_run: args.dry_run,
                        },
                        origins,
                        files,
                    },
                ),
            }
        },
    }
}

/// What a command line asks for, or why it is refused. The answer is there
/// before any ports tree is touched.
pub fn requested(cli: Cli) -> (r: Result<Request, String>)
    ensures
        crate::query::parse::result_view(r) == request_of(cli),
{
    let ghost whole = cli;
    let Cli { files, command } = cli;
    let ghost given = views(files@);
    match command {
        None => {
            if files.len() == 0 {
                return Err(
                    owned(
                        "no ports given; try `optique -z <set> category/port…` or `optique -f pkglist`",
                    ),
                );
            }
            let r = Request {
                action: Action::Tui { drive: false },
                origins: Vec::new(),
                files,
            };
            assert(views(r.origins@) =~= Seq::<Str>::empty());
            Ok(r)
        },
        Some(Command::Origins(raw)) => match split_raw_origins(&raw) {
            Ok((origins, more)) => {
                let mut files = files;
                let mut more = more;
                let ghost extra = views(more@);
                files.append(&mut more);
                assert(views(files@) =~= given + extra);
                Ok(Request { action: Action::Tui { drive: false }, origins, files })
            },
            Err(e) => Err(e),
        },
        Some(Command::Tui(args)) => Ok(
            Request {
                action: Action::Tui { drive: args.drive },
                origins: args.roots.origins,
                files,
            },
        ),
        Some(Command::Scan(args)) => Ok(
            Request {
                action: Action::Scan { json: args.json },
                origins: args.roots.origins,
                files,
            },
        ),
        Some(Command::Sync(args)) => Ok(
            Request {
                action: Action::Sync { dry_run: args.dry_run },
                origins: args.roots.origins,
                files,
            },
        ),
        Some(Command::Clean(args)) => {
            let listed = args.roots.origins.len() > 0 || files.len() > 0;
            if args.unused && !listed {
                return Err(owned("--unused needs a package list: origins or -f pkglist"));
            }
            if !args.unused && listed {
                return Err(owned("a package list only goes with clean --unused"));
            }
            Ok(
                Request {
                    action: Action::Clean {
                        redundant: args.redundant,
                        unused: args.unused,
                        dry_run: args.dry_run,
                    },
                    origins: args.roots.origins,
                    files,
                },
            )
        },
    }
}

/// How many makes run at once: as many as there are processors, four where
/// that is not known, and never more than sixteen.
pub fn default_jobs(available: Option<usize>) -> (r: usize)
    ensures
        r == match available {
            Some(n) => if n < 16 {
                n
            } else {
                16
            },
            None => 4,
        },
{
    match available {
        Some(n) => if n < 16 {
            n
        } else {
            16
        },
        None => 4,
    }
}

/// What is asked for comes from what is named, and nothing else does; the first
/// entry that names no port, and is neither blank nor a comment, is the error.
pub proof fn law_roots_named(entries: Seq<Str>, k: KeyView)
    ensures
        named_ports(entries) matches Ok(ks) ==> (ks.contains(k) ==> exists|i: int|
            0 <= i < entries.len() && key_of(trim(#[trigger] entries[i])) == Some(k)
                && trim(entries[i]).len() > 0 && !starts(trim(entries[i]), "#"@)),
        named_ports(entries) is Ok <==> forall|i: int|
            0 <= i < entries.len() ==> trim(#[trigger] entries[i]).len() == 0 || starts(
                trim(entries[i]),
                "#"@,
            ) || key_of(trim(entries[i])) is Some,
    decreases entries.len(),
{
    if entries.len() > 0 {
        let d = entries.drop_last();
        law_roots_named(d, k);
        assert(entries[entries.len() - 1] == entries.last());
        if forall|i: int|
            0 <= i < entries.len() ==> trim(#[trigger] entries[i]).len() == 0 || starts(
                trim(entries[i]),
                "#"@,
            ) || key_of(trim(entries[i])) is Some {
            assert forall|i: int| 0 <= i < d.len() implies trim(#[trigger] d[i]).len() == 0
                || starts(trim(d[i]), "#"@) || key_of(trim(d[i])) is Some by {
                assert(d[i] == entries[i]);
            }
        }
        if named_ports(entries) is Ok {
            assert forall|i: int| 0 <= i < entries.len() implies trim(
                #[trigger] entries[i],
            ).len() == 0 || starts(trim(entries[i]), "#"@) || key_of(trim(entries[i])) is Some by {
                if i < d.len() {
                    assert(d[i] == entries[i]);
                }
            }
            let ks = named_ports(entries)->Ok_0;
            let before = named_ports(d)->Ok_0;
            if ks.contains(k) {
                let j = choose|j: int| 0 <= j < ks.len() && ks[j] == k;
                if j < before.len() {
                    assert(before[j] == k);
                    assert(before.contains(k));
                    let i = choose|i: int|
                        0 <= i < d.len() && key_of(trim(#[trigger] d[i])) == Some(k) && trim(
                            d[i],
                        ).len() > 0 && !starts(trim(d[i]), "#"@);
                    assert(entries[i] == d[i]);
                }
            }
        }
    }
}

/// Arguments come before lists, and something has to be asked for.
pub proof fn law_roots(origins: Seq<Str>, lists: Seq<Str>, list: Str)
    ensures
        roots_of(origins, lists) matches Ok(ks) ==> ks.len() > 0,
        named_ports(origins + list_lines(lists)) is Err ==> roots_of(origins, lists) is Err,
        roots_of(Seq::empty(), Seq::empty()) == Err::<Seq<KeyView>, RootErrorView>(
            RootErrorView::Nothing,
        ),
        list_lines(lists.push(list)) == list_lines(lists) + lines(list),
{
    assert(lists.push(list).drop_last() =~= lists);
    assert(Seq::<Str>::empty() + list_lines(Seq::empty()) =~= Seq::<Str>::empty());
}

/// What a command line asks for. Without a command it is the interface over the
/// listed ports, and something has to be listed. A command asks for what it is
/// called after, with its flags, and a list for cleaning goes with unused files
/// and only with them.
pub proof fn law_request(cli: Cli)
    ensures
        ({
            let r = request_of(cli);
            let files = views(cli.files@);
            let asks = |action: Action, origins: Seq<Str>|
                r == Ok::<RequestView, Str>(RequestView { action, origins, files });
            match cli.command {
                None => if files.len() == 0 {
                    r is Err
                } else {
                    asks(Action::Tui { drive: false }, Seq::empty())
                },
                Some(Command::Tui(a)) => asks(
                    Action::Tui { drive: a.drive },
                    views(a.roots.origins@),
                ),
                Some(Command::Scan(a)) => asks(
                    Action::Scan { json: a.json },
                    views(a.roots.origins@),
                ),
                Some(Command::Sync(a)) => asks(
                    Action::Sync { dry_run: a.dry_run },
                    views(a.roots.origins@),
                ),
                Some(Command::Clean(a)) => {
                    let listed = a.roots.origins@.len() > 0 || files.len() > 0;
                    if a.unused != listed {
                        r is Err
                    } else {
                        asks(
                            Action::Clean {
                                redundant: a.redundant,
                                unused: a.unused,
                                dry_run: a.dry_run,
                            },
                            views(a.roots.origins@),
                        )
                    }
                },
                Some(Command::Origins(raw)) => match split_from(views(raw@), 0) {
                    Err(_) => r is Err,
                    Ok((origins, more)) => r == Ok::<RequestView, Str>(
                        RequestView {
                            action: Action::Tui { drive: false },
                            origins,
                            files: files + more,
                        },
                    ),
                },
            }
        }),
{
}

/// How bare arguments fall apart: what follows `-f` or `--file`, or stands behind
/// `--file=`, is a list; a flag is refused; the rest are origins.
pub proof fn law_bare_arguments(raw: Seq<Str>, i: int)
    requires
        0 <= i < raw.len(),
    ensures
        ({
            let r = split_from(raw, i);
            &&& (raw[i] == "-f"@ || raw[i] == "--file"@) && i + 1 == raw.len() ==> r is Err
            &&& (raw[i] == "-f"@ || raw[i] == "--file"@) && i + 1 < raw.len() ==> match split_from(
                raw,
                i + 2,
            ) {
                Ok((o, f)) => r == Ok::<(Seq<Str>, Seq<Str>), Str>((o, seq![raw[i + 1]] + f)),
                Err(e) => r == Err::<(Seq<Str>, Seq<Str>), Str>(e),
            }
            &&& raw[i].len() > 0 && raw[i][0] != '-' ==> match split_from(raw, i + 1) {
                Ok((o, f)) => r == Ok::<(Seq<Str>, Seq<Str>), Str>((seq![raw[i]] + o, f)),
                Err(e) => r == Err::<(Seq<Str>, Seq<Str>), Str>(e),
            }
            &&& raw[i].len() > 1 && raw[i][0] == '-' && raw[i][1] != '-' && raw[i] != "-f"@
                ==> r is Err
        }),
{
    reveal_strlit("-f");
    reveal_strlit("--file");
    reveal_strlit("--file=");
    reveal_strlit("-");
    let a = raw[i];
    assert("-f"@[0] == '-' && "--file"@[0] == '-' && "--file"@[1] == '-');
    assert("--file="@[0] == '-' && "--file="@[1] == '-' && "-"@[0] == '-');
    if raw[i] == "-f"@ || raw[i] == "--file"@ {
        if let Ok((o, f)) = split_from(raw, i + 2) {
            assert(Seq::<Str>::empty() + o =~= o);
        }
    } else if a.len() > 0 {
        if starts(a, "--file="@) {
            assert(a.take(7)[0] == a[0] && a.take(7)[1] == a[1]);
        }
        if starts(a, "-"@) {
            assert(a.take(1)[0] == a[0]);
        }
        if a[0] == '-' {
            assert(a.take(1) =~= "-"@);
        }
        if let Ok((o, f)) = split_from(raw, i + 1) {
            assert(Seq::<Str>::empty() + f =~= f);
        }
    }
}

} // verus!
