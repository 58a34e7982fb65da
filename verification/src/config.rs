use vstd::prelude::*;

verus! {

/// One configured rule inside a virtual host's ordered policy list.
#[derive(Debug, Clone)]
pub enum Directive {
    Root { pattern: String, path: String },
    FileServer,
    ReverseProxy { pattern: String, destination: String },
    Redir { destination: String },
    Tls { cert: String, key: String },
}

/// The mathematical content of a `Directive`.
pub enum DirectiveView {
    Root { pattern: Seq<char>, path: Seq<char> },
    FileServer,
    ReverseProxy { pattern: Seq<char>, destination: Seq<char> },
    Redir { destination: Seq<char> },
    Tls { cert: Seq<char>, key: Seq<char> },
}

impl DeepView for Directive {
    type V = DirectiveView;

    open spec fn deep_view(&self) -> DirectiveView {
        match self {
            Directive::Root { pattern, path } => DirectiveView::Root {
                pattern: pattern@,
                path: path@,
            },
            Directive::FileServer => DirectiveView::FileServer,
            Directive::ReverseProxy { pattern, destination } => DirectiveView::ReverseProxy {
                pattern: pattern@,
                destination: destination@,
            },
            Directive::Redir { destination } => DirectiveView::Redir { destination: destination@ },
            Directive::Tls { cert, key } => DirectiveView::Tls { cert: cert@, key: key@ },
        }
    }
}

/// One virtual host and its ordered directives.
#[derive(Debug, Clone)]
pub struct HostEntry {
    pub host: String,
    pub directives: Vec<Directive>,
}

/// The mathematical content of a `HostEntry`.
pub struct HostEntryView {
    pub host: Seq<char>,
    pub directives: Seq<DirectiveView>,
}

impl DeepView for HostEntry {
    type V = HostEntryView;

    open spec fn deep_view(&self) -> HostEntryView {
        HostEntryView { host: self.host@, directives: self.directives.deep_view() }
    }
}

/// The immutable table built at startup: each virtual host with its ordered
/// directive list, host names unique.
#[derive(Debug, Clone)]
pub struct DirectiveTable {
    pub entries: Vec<HostEntry>,
}

impl DeepView for DirectiveTable {
    type V = Seq<HostEntryView>;

    open spec fn deep_view(&self) -> Seq<HostEntryView> {
        self.entries.deep_view()
    }
}

/// The directive list of the first entry whose host name is `h`, if any.
pub open spec fn spec_lookup(t: Seq<HostEntryView>, h: Seq<char>) -> Option<Seq<DirectiveView>>
    decreases t.len(),
{
    if t.len() == 0 {
        None
    } else if t[0].host == h {
        Some(t[0].directives)
    } else {
        spec_lookup(t.drop_first(), h)
    }
}

/// A well-formed table: host names pairwise distinct, no host without a
/// directive.
pub open spec fn table_wf(t: Seq<HostEntryView>) -> bool {
    &&& forall|i: int, j: int|
        0 <= i < j < t.len() ==> t[i].host != t[j].host
    &&& forall|i: int| 0 <= i < t.len() ==> #[trigger] t[i].directives.len() > 0
}

impl DirectiveTable {
    pub open spec fn wf(&self) -> bool {
        table_wf(self.deep_view())
    }

    /// Finds the directive list configured for `host`, matching `spec_lookup`.
    pub fn lookup(&self, host: &str) -> (r: Option<&Vec<Directive>>)
        ensures
            match r {
                Some(ds) => spec_lookup(self.deep_view(), host@) == Some(ds.deep_view()),
                None => spec_lookup(self.deep_view(), host@) is None,
            },
    {
        let ghost dv = self.deep_view();
        let h: String = host.to_owned();
        let mut i: usize = 0;
        assert(dv.skip(0) =~= dv);
        while i < self.entries.len()
            invariant
                0 <= i <= self.entries@.len(),
                dv == self.deep_view(),
                dv.len() == self.entries@.len(),
                h@ == host@,
                spec_lookup(dv, host@) == spec_lookup(dv.skip(i as int), host@),
            decreases self.entries@.len() - i,
        {
            assert(dv.skip(i as int)[0] == dv[i as int]);
            if self.entries[i].host == h {
                return Some(&self.entries[i].directives);
            }
            assert(dv.skip(i as int).drop_first() =~= dv.skip(i + 1 as int));
            i += 1;
        }
        assert(dv.skip(i as int) =~= Seq::<HostEntryView>::empty());
        None
    }
}

/// Why a configuration was rejected at startup.
#[derive(Debug, Clone)]
pub enum ConfigError {
    /// A known directive with too few arguments, under the named host.
    InvalidDirective { host: String, directive: String },
    /// A directive name this server does not know, under the named host.
    UnknownDirective { host: String, directive: String },
    /// A host block with no directives at all.
    NoDirectives { host: String },
    /// A host name that appears twice.
    DuplicateHost { host: String },
}

/// The mathematical content of a `ConfigError`.
pub enum ConfigErrorView {
    InvalidDirective { host: Seq<char>, directive: Seq<char> },
    UnknownDirective { host: Seq<char>, directive: Seq<char> },
    NoDirectives { host: Seq<char> },
    DuplicateHost { host: Seq<char> },
}

impl DeepView for ConfigError {
    type V = ConfigErrorView;

    open spec fn deep_view(&self) -> ConfigErrorView {
        match self {
            ConfigError::InvalidDirective { host, directive } => ConfigErrorView::InvalidDirective {
                host: host@,
                directive: directive@,
            },
            ConfigError::UnknownDirective { host, directive } => ConfigErrorView::UnknownDirective {
                host: host@,
                directive: directive@,
            },
            ConfigError::NoDirectives { host } => ConfigErrorView::NoDirectives { host: host@ },
            ConfigError::DuplicateHost { host } => ConfigErrorView::DuplicateHost { host: host@ },
        }
    }
}

/// One declaration inside a host block, reduced to its name and its string
/// arguments in order.
#[derive(Debug, Clone)]
pub struct RawNode {
    pub name: String,
    pub args: Vec<String>,
}

/// The mathematical content of a `RawNode`.
pub struct RawNodeView {
    pub name: Seq<char>,
    pub args: Seq<Seq<char>>,
}

impl DeepView for RawNode {
    type V = RawNodeView;

    open spec fn deep_view(&self) -> RawNodeView {
        RawNodeView { name: self.name@, args: self.args.deep_view() }
    }
}

/// One host block, reduced to its name and its declarations in order.
#[derive(Debug, Clone)]
pub struct RawHost {
    pub hostname: String,
    pub children: Vec<RawNode>,
}

/// The mathematical content of a `RawHost`.
pub struct RawHostView {
    pub hostname: Seq<char>,
    pub children: Seq<RawNodeView>,
}

impl DeepView for RawHost {
    type V = RawHostView;

    open spec fn deep_view(&self) -> RawHostView {
        RawHostView { hostname: self.hostname@, children: self.children.deep_view() }
    }
}

/// How one declaration reads as a directive: the directive, or the kind of
/// rejection it earns.
pub enum DirectiveParse {
    Parsed(DirectiveView),
    TooFewArgs,
    UnknownName,
}

/// The reading of one declaration: `root`, `reverse_proxy` and `tls` take two
/// string arguments, `redir` one, `file_server` none; extra arguments are
/// ignored; any other name is unknown.
pub open spec fn spec_directive(name: Seq<char>, args: Seq<Seq<char>>) -> DirectiveParse {
    if name == "root"@ {
        if args.len() >= 2 {
            DirectiveParse::Parsed(DirectiveView::Root { pattern: args[0], path: args[1] })
        } else {
            DirectiveParse::TooFewArgs
        }
    } else if name == "file_server"@ {
        DirectiveParse::Parsed(DirectiveView::FileServer)
    } else if name == "reverse_proxy"@ {
        if args.len() >= 2 {
            DirectiveParse::Parsed(
                DirectiveView::ReverseProxy { pattern: args[0], destination: args[1] },
            )
        } else {
            DirectiveParse::TooFewArgs
        }
    } else if name == "redir"@ {
        if args.len() >= 1 {
            DirectiveParse::Parsed(DirectiveView::Redir { destination: args[0] })
        } else {
            DirectiveParse::TooFewArgs
        }
    } else if name == "tls"@ {
        if args.len() >= 2 {
            DirectiveParse::Parsed(DirectiveView::Tls { cert: args[0], key: args[1] })
        } else {
            DirectiveParse::TooFewArgs
        }
    } else {
        DirectiveParse::UnknownName
    }
}

/// The reading of a host block's declarations, left to right, first rejection
/// wins.
pub open spec fn spec_build_dirs(hostname: Seq<char>, children: Seq<RawNodeView>) -> Result<
    Seq<DirectiveView>,
    ConfigErrorView,
>
    decreases children.len(),
{
    if children.len() == 0 {
        Ok(seq![])
    } else {
        match spec_directive(children[0].name, children[0].args) {
            DirectiveParse::UnknownName => Err(
                ConfigErrorView::UnknownDirective { host: hostname, directive: children[0].name },
            ),
            DirectiveParse::TooFewArgs => Err(
                ConfigErrorView::InvalidDirective { host: hostname, directive: children[0].name },
            ),
            DirectiveParse::Parsed(d) => match spec_build_dirs(hostname, children.drop_first()) {
                Err(e) => Err(e),
                Ok(rest) => Ok(seq![d] + rest),
            },
        }
    }
}

/// The building of the whole table, host blocks left to right over what has
/// been built so far: a block's declarations are read first, then an empty
/// block is rejected, then a host name already present is rejected.
pub open spec fn spec_build_table(hosts: Seq<RawHostView>, acc: Seq<HostEntryView>) -> Result<
    Seq<HostEntryView>,
    ConfigErrorView,
>
    decreases hosts.len(),
{
    if hosts.len() == 0 {
        Ok(acc)
    } else {
        let h = hosts[0];
        match spec_build_dirs(h.hostname, h.children) {
            Err(e) => Err(e),
            Ok(ds) => if ds.len() == 0 {
                Err(ConfigErrorView::NoDirectives { host: h.hostname })
            } else if spec_lookup(acc, h.hostname) is Some {
                Err(ConfigErrorView::DuplicateHost { host: h.hostname })
            } else {
                spec_build_table(
                    hosts.drop_first(),
                    acc.push(HostEntryView { host: h.hostname, directives: ds }),
                )
            },
        }
    }
}


/// A host absent from the lookup is absent from every entry.
pub proof fn lemma_lookup_none_absent(t: Seq<HostEntryView>, h: Seq<char>)
    requires
        spec_lookup(t, h) is None,
    ensures
        forall|i: int| 0 <= i < t.len() ==> t[i].host != h,
    decreases t.len(),
{
    if t.len() > 0 {
        lemma_lookup_none_absent(t.drop_first(), h);
        assert forall|i: int| 0 <= i < t.len() implies t[i].host != h by {
            if i > 0 {
                assert(t.drop_first()[i - 1] == t[i]);
            }
        }
    }
}

/// A host present in some entry is found by the lookup.
pub proof fn lemma_lookup_found(t: Seq<HostEntryView>, h: Seq<char>, k: int)
    requires
        0 <= k < t.len(),
        t[k].host == h,
    ensures
        spec_lookup(t, h) is Some,
    decreases t.len(),
{
    if t[0].host == h {
    } else {
        assert(t.drop_first()[k - 1] == t[k]);
        lemma_lookup_found(t.drop_first(), h, k - 1);
    }
}

/// Reads one host block's declarations into directives, matching
/// `spec_build_dirs`.
pub fn build_directives(hostname: &String, children: &Vec<RawNode>) -> (r: Result<
    Vec<Directive>,
    ConfigError,
>)
    ensures
        match r {
            Ok(ds) => spec_build_dirs(hostname@, children.deep_view()) == Ok::<
                Seq<DirectiveView>,
                ConfigErrorView,
            >(ds.deep_view()),
            Err(e) => spec_build_dirs(hostname@, children.deep_view()) == Err::<
                Seq<DirectiveView>,
                ConfigErrorView,
            >(e.deep_view()),
        },
{
    let ghost full = children.deep_view();
    let mut acc: Vec<Directive> = Vec::new();
    let mut i: usize = 0;
    assert(full.skip(0) =~= full);
    assert(acc.deep_view() =~= Seq::<DirectiveView>::empty());
    while i < children.len()
        invariant
            0 <= i <= children@.len(),
            full == children.deep_view(),
            full.len() == children@.len(),
            spec_build_dirs(hostname@, full) == (match spec_build_dirs(
                hostname@,
                full.skip(i as int),
            ) {
                Err(e) => Err(e),
                Ok(rest) => Ok(acc.deep_view() + rest),
            }),
        decreases children@.len() - i,
    {
        let child = &children[i];
        proof {
            assert(full.skip(i as int)[0] == full[i as int]);
            assert(full[i as int] == children@[i as int].deep_view());
            assert(full.skip(i as int).drop_first() =~= full.skip(i + 1 as int));
        }
        let name: &String = &child.name;
        let parsed: Option<Directive> = if crate::ascii::str_eq(name.as_str(), "root") {
            if child.args.len() >= 2 {
                Some(
                    Directive::Root { pattern: child.args[0].clone(), path: child.args[1].clone() },
                )
            } else {
                return Err(
                    ConfigError::InvalidDirective { host: hostname.clone(), directive: name.clone() },
                );
            }
        } else if crate::ascii::str_eq(name.as_str(), "file_server") {
            Some(Directive::FileServer)
        } else if crate::ascii::str_eq(name.as_str(), "reverse_proxy") {
            if child.args.len() >= 2 {
                Some(
                    Directive::ReverseProxy {
                        pattern: child.args[0].clone(),
                        destination: child.args[1].clone(),
                    },
                )
            } else {
                return Err(
                    ConfigError::InvalidDirective { host: hostname.clone(), directive: name.clone() },
                );
            }
        } else if crate::ascii::str_eq(name.as_str(), "redir") {
            if child.args.len() >= 1 {
                Some(Directive::Redir { destination: child.args[0].clone() })
            } else {
                return Err(
                    ConfigError::InvalidDirective { host: hostname.clone(), directive: name.clone() },
                );
            }
        } else if crate::ascii::str_eq(name.as_str(), "tls") {
            if child.args.len() >= 2 {
                Some(Directive::Tls { cert: child.args[0].clone(), key: child.args[1].clone() })
            } else {
                return Err(
                    ConfigError::InvalidDirective { host: hostname.clone(), directive: name.clone() },
                );
            }
        } else {
            return Err(
                ConfigError::UnknownDirective { host: hostname.clone(), directive: name.clone() },
            );
        };
        let d = match parsed {
            Some(d) => d,
            None => {
                return Err(
                    ConfigError::UnknownDirective { host: hostname.clone(), directive: name.clone() },
                );
            },
        };
        let ghost acc_old = acc.deep_view();
        let ghost dv = d.deep_view();
        acc.push(d);
        proof {
            assert(spec_directive(full[i as int].name, full[i as int].args)
                == DirectiveParse::Parsed(dv));
            assert(acc.deep_view() =~= acc_old.push(dv));
            assert forall|rest: Seq<DirectiveView>| true implies (acc_old + (seq![dv] + rest))
                =~= (acc_old.push(dv) + rest) by {}
        }
        i += 1;
    }
    assert(full.skip(i as int) =~= Seq::<RawNodeView>::empty());
    assert(acc.deep_view() + Seq::<DirectiveView>::empty() =~= acc.deep_view());
    Ok(acc)
}

/// True iff an entry for host `h` is already present.
fn host_present(entries: &Vec<HostEntry>, h: &String) -> (r: bool)
    ensures
        r == (spec_lookup(entries.deep_view(), h@) is Some),
{
    let ghost dv = entries.deep_view();
    let mut i: usize = 0;
    assert(dv.skip(0) =~= dv);
    while i < entries.len()
        invariant
            0 <= i <= entries@.len(),
            dv == entries.deep_view(),
            dv.len() == entries@.len(),
            spec_lookup(dv, h@) == spec_lookup(dv.skip(i as int), h@),
        decreases entries@.len() - i,
    {
        assert(dv.skip(i as int)[0] == dv[i as int]);
        if entries[i].host == *h {
            return true;
        }
        assert(dv.skip(i as int).drop_first() =~= dv.skip(i + 1 as int));
        i += 1;
    }
    assert(dv.skip(i as int) =~= Seq::<HostEntryView>::empty());
    false
}

/// Builds the directive table out of the host blocks, matching
/// `spec_build_table`: declarations are read in order, an empty host block and
/// a repeated host name are rejected, and a built table is well-formed.
pub fn build_table_from_raw(hosts: &Vec<RawHost>) -> (r: Result<DirectiveTable, ConfigError>)
    ensures
        match r {
            Ok(t) => spec_build_table(hosts.deep_view(), seq![]) == Ok::<
                Seq<HostEntryView>,
                ConfigErrorView,
            >(t.deep_view()) && t.wf(),
            Err(e) => spec_build_table(hosts.deep_view(), seq![]) == Err::<
                Seq<HostEntryView>,
                ConfigErrorView,
            >(e.deep_view()),
        },
{
    let ghost full = hosts.deep_view();
    let mut entries: Vec<HostEntry> = Vec::new();
    let mut i: usize = 0;
    assert(full.skip(0) =~= full);
    assert(entries.deep_view() =~= Seq::<HostEntryView>::empty());
    while i < hosts.len()
        invariant
            0 <= i <= hosts@.len(),
            full == hosts.deep_view(),
            full.len() == hosts@.len(),
            table_wf(entries.deep_view()),
            spec_build_table(full, seq![]) == spec_build_table(
                full.skip(i as int),
                entries.deep_view(),
            ),
        decreases hosts@.len() - i,
    {
        let h = &hosts[i];
        proof {
            assert(full.skip(i as int)[0] == full[i as int]);
            assert(full[i as int] == hosts@[i as int].deep_view());
            assert(full.skip(i as int).drop_first() =~= full.skip(i + 1 as int));
        }
        let ds = match build_directives(&h.hostname, &h.children) {
            Ok(ds) => ds,
            Err(e) => {
                return Err(e);
            },
        };
        if ds.len() == 0 {
            assert(ds.deep_view().len() == 0);
            return Err(ConfigError::NoDirectives { host: h.hostname.clone() });
        }
        if host_present(&entries, &h.hostname) {
            return Err(ConfigError::DuplicateHost { host: h.hostname.clone() });
        }
        let ghost entries_old = entries.deep_view();
        let entry = HostEntry { host: h.hostname.clone(), directives: ds };
        let ghost ev = entry.deep_view();
        entries.push(entry);
        proof {
            assert(entries.deep_view() =~= entries_old.push(ev));
            lemma_lookup_none_absent(entries_old, ev.host);
            assert forall|a: int, b: int|
                0 <= a < b < entries.deep_view().len() implies entries.deep_view()[a].host
                != entries.deep_view()[b].host by {
                if b < entries_old.len() {
                } else {
                    assert(entries.deep_view()[b] == ev);
                    assert(entries_old[a].host != ev.host);
                }
            }
        }
        i += 1;
    }
    assert(full.skip(i as int) =~= Seq::<RawHostView>::empty());
    let t = DirectiveTable { entries };
    Ok(t)
}

} // verus!
