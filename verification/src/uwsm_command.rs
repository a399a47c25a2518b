//! A command that is launched through `uwsm app`, so that the process runs in
//! a systemd unit of its own, inside the slice that was chosen for it.

use crate::text::texts_of;
use vstd::prelude::*;
use vstd::string::StringExecFns;

verus! {

/// The kind of systemd unit that a process is started in.
#[derive(Clone, Copy, Debug, PartialEq, Eq, Structural)]
pub enum UnitType {
    Scope,
    Service,
}

impl UnitType {
    /// The word that `uwsm app -t` takes for this kind of unit.
    pub open spec fn text(self) -> Seq<char> {
        match self {
            UnitType::Scope => "scope"@,
            UnitType::Service => "service"@,
        }
    }

    /// The word that `uwsm app -t` takes for this kind of unit.
    pub fn to_string(&self) -> (s: String)
        ensures
            s@ == self.text(),
    {
        match self {
            UnitType::Scope => "scope".to_owned(),
            UnitType::Service => "service".to_owned(),
        }
    }
}

/// The slice that a process is started in.
#[derive(Debug, PartialEq, Eq)]
pub enum SliceSelector {
    App,
    Background,
    Session,
    Custom(String),
}

impl SliceSelector {
    /// The word that `uwsm app -s` takes for this slice: a letter for each
    /// of the three slices that `uwsm` knows, or the name of another.
    pub open spec fn text(self) -> Seq<char> {
        match self {
            SliceSelector::App => "a"@,
            SliceSelector::Background => "b"@,
            SliceSelector::Session => "s"@,
            SliceSelector::Custom(name) => name@,
        }
    }

    /// The word that `uwsm app -s` takes for this slice.
    pub fn to_string(&self) -> (s: String)
        ensures
            s@ == self.text(),
    {
        match self {
            SliceSelector::App => "a".to_owned(),
            SliceSelector::Background => "b".to_owned(),
            SliceSelector::Session => "s".to_owned(),
            SliceSelector::Custom(name) => name.clone(),
        }
    }
}

/// What the string holds, where there is one.
pub open spec fn text_of(part: Option<String>) -> Option<Seq<char>> {
    match part {
        Some(text) => Some(text@),
        None => None,
    }
}

/// What each pair of strings holds.
pub open spec fn pairs_of(entries: Seq<(String, String)>) -> Seq<(Seq<char>, Seq<char>)> {
    Seq::new(entries.len(), |i: int| (entries[i].0@, entries[i].1@))
}

/// No key occurs twice in `entries`.
pub open spec fn distinct_keys(entries: Seq<(Seq<char>, Seq<char>)>) -> bool {
    forall|i: int, j: int|
        0 <= i < j < entries.len() ==> (#[trigger] entries[i]).0 != (#[trigger] entries[j]).0
}

/// The index of the first entry for `key`, or the length of `entries` where
/// no entry has that key.
pub open spec fn index_of_key(entries: Seq<(Seq<char>, Seq<char>)>, key: Seq<char>) -> int
    decreases entries.len(),
{
    if entries.len() == 0 || entries.first().0 == key {
        0
    } else {
        1 + index_of_key(entries.drop_first(), key)
    }
}

/// The value that `entries` has for `key`, if it has one.
pub open spec fn value_of(entries: Seq<(Seq<char>, Seq<char>)>, key: Seq<char>) -> Option<
    Seq<char>,
> {
    let i = index_of_key(entries, key);
    if i < entries.len() {
        Some(entries[i].1)
    } else {
        None
    }
}

/// `entries` with `key` bound to `value`: a key that is there already keeps
/// its place and gets the new value, a new key goes to the end.
pub open spec fn bound(
    entries: Seq<(Seq<char>, Seq<char>)>,
    key: Seq<char>,
    value: Seq<char>,
) -> Seq<(Seq<char>, Seq<char>)> {
    let i = index_of_key(entries, key);
    if i < entries.len() {
        entries.update(i, (key, value))
    } else {
        entries.push((key, value))
    }
}

/// `entries` with each pair of `vars` bound in turn, so that of two values
/// for one key the later one stays.
pub open spec fn bound_all(
    entries: Seq<(Seq<char>, Seq<char>)>,
    vars: Seq<(Seq<char>, Seq<char>)>,
) -> Seq<(Seq<char>, Seq<char>)>
    decreases vars.len(),
{
    if vars.len() == 0 {
        entries
    } else {
        bound_all(bound(entries, vars.first().0, vars.first().1), vars.drop_first())
    }
}

/// `index_of_key` is the one index that has `key` with no entry for `key`
/// before it, the length of `entries` standing for "none".
pub proof fn lemma_index_of_key(entries: Seq<(Seq<char>, Seq<char>)>, key: Seq<char>, i: int)
    requires
        0 <= i <= entries.len(),
        forall|j: int| 0 <= j < i ==> (#[trigger] entries[j]).0 != key,
        i < entries.len() ==> entries[i].0 == key,
    ensures
        index_of_key(entries, key) == i,
    decreases entries.len(),
{
    if i > 0 {
        let rest = entries.drop_first();
        lemma_index_of_key(rest, key, i - 1);
    }
}

/// What `index_of_key` finds: an entry for `key` with none before it, or the
/// length of `entries`.
pub proof fn lemma_index_of_key_finds(entries: Seq<(Seq<char>, Seq<char>)>, key: Seq<char>)
    ensures
        0 <= index_of_key(entries, key) <= entries.len(),
        forall|j: int| 0 <= j < index_of_key(entries, key) ==> (#[trigger] entries[j]).0 != key,
        index_of_key(entries, key) < entries.len() ==> entries[index_of_key(entries, key)].0
            == key,
    decreases entries.len(),
{
    if !(entries.len() == 0 || entries.first().0 == key) {
        let rest = entries.drop_first();
        lemma_index_of_key_finds(rest, key);
        assert forall|j: int| 0 <= j < index_of_key(entries, key) implies (
        #[trigger] entries[j]).0 != key by {
            if j > 0 {
                assert(entries[j] == rest[j - 1]);
            }
        }
    }
}

/// Binding acts as insertion into a map does: afterwards the key has the new
/// value, every other key has what it had, and still no key occurs twice.
pub proof fn lemma_bound_inserts(
    entries: Seq<(Seq<char>, Seq<char>)>,
    key: Seq<char>,
    value: Seq<char>,
)
    ensures
        value_of(bound(entries, key, value), key) == Some(value),
        forall|other: Seq<char>|
            other != key ==> #[trigger] value_of(bound(entries, key, value), other) == value_of(
                entries,
                other,
            ),
        distinct_keys(entries) ==> distinct_keys(bound(entries, key, value)),
{
    let after = bound(entries, key, value);
    let at = index_of_key(entries, key);
    lemma_index_of_key_finds(entries, key);
    lemma_index_of_key(after, key, at);
    assert forall|other: Seq<char>| other != key implies #[trigger] value_of(after, other)
        == value_of(entries, other) by {
        let found = index_of_key(entries, other);
        lemma_index_of_key_finds(entries, other);
        if found < entries.len() {
            lemma_index_of_key(after, other, found);
        } else {
            lemma_index_of_key(after, other, after.len() as int);
        }
    }
}

/// Bind `key` to `value` in `entries`, as `bound` says.
fn bind(entries: &mut Vec<(String, String)>, key: String, value: String)
    ensures
        pairs_of(final(entries)@) == bound(pairs_of(old(entries)@), key@, value@),
{
    let ghost before = pairs_of(entries@);
    let mut i: usize = 0;
    while i < entries.len()
        invariant
            i <= entries.len(),
            before == pairs_of(old(entries)@),
            pairs_of(entries@) == before,
            forall|j: int| 0 <= j < i ==> (#[trigger] before[j]).0 != key@,
        decreases entries.len() - i,
    {
        if entries[i].0 == key {
            proof {
                lemma_index_of_key(before, key@, i as int);
            }
            entries.set(i, (key, value));
            return ;
        }
        i = i + 1;
    }
    proof {
        lemma_index_of_key(before, key@, before.len() as int);
    }
    entries.push((key, value));
}

/// What a `UwsmCommand` holds.
pub struct UwsmCommandView {
    /// The program to run.
    pub command: Seq<char>,
    /// The arguments for the program.
    pub args: Seq<Seq<char>>,
    /// Whether the program is spawned only once in the compositor's lifespan.
    pub once: bool,
    /// The environment variables for the process, each name once, in the
    /// order in which the names were first set.
    pub envs: Seq<(Seq<char>, Seq<char>)>,
    /// Whether the program is spawned only if no instance of it is running.
    pub unique: bool,
    pub pipe_stdin: bool,
    pub pipe_stdout: bool,
    pub pipe_stderr: bool,
    /// The kind of unit, where one was chosen.
    pub unit_type: Option<UnitType>,
    /// The word for the slice, where one was chosen.
    pub slice_selector: Option<Seq<char>>,
    /// The unit properties, each name once, in the order in which the names
    /// were first set. `None` until a property is set.
    pub unit_properties: Option<Seq<(Seq<char>, Seq<char>)>>,
}

/// What an `Invocation` holds.
pub struct InvocationView {
    pub shell: Seq<Seq<char>>,
    pub command: Seq<char>,
    pub args: Seq<Seq<char>>,
    pub envs: Seq<(Seq<char>, Seq<char>)>,
    pub once: bool,
    pub unique: bool,
    pub pipe_stdin: bool,
    pub pipe_stdout: bool,
    pub pipe_stderr: bool,
}

/// The words `-p name=value` for each property in turn.
pub open spec fn property_flags(properties: Seq<(Seq<char>, Seq<char>)>) -> Seq<Seq<char>>
    decreases properties.len(),
{
    if properties.len() == 0 {
        Seq::empty()
    } else {
        property_flags(properties.drop_last()) + seq![
            "-p"@,
            properties.last().0 + "="@ + properties.last().1,
        ]
    }
}

impl UwsmCommandView {
    /// No environment variable and no unit property is set twice.
    pub open spec fn wf(self) -> bool {
        &&& distinct_keys(self.envs)
        &&& self.unit_properties matches Some(properties) ==> distinct_keys(properties)
    }

    /// The name under which `uwsm` runs the program: the file prefix of the
    /// command where it has one, else the command as it is.
    pub open spec fn app_name(self, prefix: Option<Seq<char>>) -> Seq<char> {
        match prefix {
            Some(name) => name,
            None => self.command,
        }
    }

    /// The words that start the program through `uwsm`: `uwsm app -a` and
    /// the name, then `-t` with the kind of unit and `-s` with the slice
    /// where they were chosen, then `-p` with each unit property.
    pub open spec fn shell(self, prefix: Option<Seq<char>>) -> Seq<Seq<char>> {
        seq!["uwsm"@, "app"@, "-a"@, self.app_name(prefix)] + (match self.unit_type {
            Some(unit) => seq!["-t"@, unit.text()],
            None => Seq::empty(),
        }) + (match self.slice_selector {
            Some(slice) => seq!["-s"@, slice],
            None => Seq::empty(),
        }) + (match self.unit_properties {
            Some(properties) => property_flags(properties),
            None => Seq::empty(),
        })
    }

    /// All that is needed to spawn the command.
    pub open spec fn invocation(self, prefix: Option<Seq<char>>) -> InvocationView {
        InvocationView {
            shell: self.shell(prefix),
            command: self.command,
            args: self.args,
            envs: self.envs,
            once: self.once,
            unique: self.unique,
            pipe_stdin: self.pipe_stdin,
            pipe_stdout: self.pipe_stdout,
            pipe_stderr: self.pipe_stderr,
        }
    }
}

/// All that is needed to spawn a `UwsmCommand`, as plain values: the words
/// that go before the command, the command with its arguments and
/// environment, and how the process is to be set up.
pub struct Invocation {
    pub shell: Vec<String>,
    pub command: String,
    pub args: Vec<String>,
    pub envs: Vec<(String, String)>,
    pub once: bool,
    pub unique: bool,
    pub pipe_stdin: bool,
    pub pipe_stdout: bool,
    pub pipe_stderr: bool,
}

impl View for Invocation {
    type V = InvocationView;

    open spec fn view(&self) -> InvocationView {
        InvocationView {
            shell: texts_of(self.shell@),
            command: self.command@,
            args: texts_of(self.args@),
            envs: pairs_of(self.envs@),
            once: self.once,
            unique: self.unique,
            pipe_stdin: self.pipe_stdin,
            pipe_stdout: self.pipe_stdout,
            pipe_stderr: self.pipe_stderr,
        }
    }
}

/// `Command` wrapper that spawns via `uwsm app`. This ensures processes are
/// started within an appropriate systemd slice, with a matching unit.
pub struct UwsmCommand {
    command: String,
    args: Vec<String>,
    once: bool,
    envs: Vec<(String, String)>,
    unique: bool,
    pipe_stdin: bool,
    pipe_stdout: bool,
    pipe_stderr: bool,
    unit_type: Option<UnitType>,
    slice_selector: Option<SliceSelector>,
    unit_properties: Option<Vec<(String, String)>>,
}

impl View for UwsmCommand {
    type V = UwsmCommandView;

    closed spec fn view(&self) -> UwsmCommandView {
        UwsmCommandView {
            command: self.command@,
            args: texts_of(self.args@),
            once: self.once,
            envs: pairs_of(self.envs@),
            unique: self.unique,
            pipe_stdin: self.pipe_stdin,
            pipe_stdout: self.pipe_stdout,
            pipe_stderr: self.pipe_stderr,
            unit_type: self.unit_type,
            slice_selector: match self.slice_selector {
                Some(slice) => Some(slice.text()),
                None => None,
            },
            unit_properties: match self.unit_properties {
                Some(properties) => Some(pairs_of(properties@)),
                None => None,
            },
        }
    }
}

/// What `std::path::Path::file_prefix` returns for `path`, as text, and
/// `None` where it returns none. This is a name only: nothing here says what
/// the prefix of a given path is.
pub uninterp spec fn path_file_prefix(path: Seq<char>) -> Option<Seq<char>>;

/// Calls `std::path::Path::file_prefix` on `path`. Its contract is trusted,
/// not proved. It claims that what comes back is what `path_file_prefix`
/// names, that is, that the prefix depends on the text of the path alone,
/// read as the platform the library is built for reads paths.
#[verifier::external_body]
fn file_prefix(path: &str) -> (prefix: Option<String>)
    ensures
        text_of(prefix) == path_file_prefix(path@),
{
    let name = std::path::Path::new(path).file_prefix()?;
    Some(name.to_str()?.to_owned())
}

impl UwsmCommand {
    /// No environment variable and no unit property is held twice.
    #[verifier::type_invariant]
    spec fn inv(self) -> bool {
        self@.wf()
    }

    /// A new `Command` wrapped by UWSM. The latter ensures the app is
    /// started within a systemd slice with the appropriate scope or session,
    /// under the compositor.
    pub fn new(command: &str) -> (r: UwsmCommand)
        ensures
            r@.wf(),
            r@ == (UwsmCommandView {
                command: command@,
                args: Seq::empty(),
                once: false,
                envs: Seq::empty(),
                unique: false,
                pipe_stdin: false,
                pipe_stdout: false,
                pipe_stderr: false,
                unit_type: None,
                slice_selector: None,
                unit_properties: None,
            }),
    {
        let r = UwsmCommand {
            command: command.to_owned(),
            args: Vec::new(),
            once: false,
            envs: Vec::new(),
            unique: false,
            pipe_stdin: false,
            pipe_stdout: false,
            pipe_stderr: false,
            unit_type: None,
            slice_selector: None,
            unit_properties: None,
        };
        assert(r@.args =~= Seq::empty());
        assert(r@.envs =~= Seq::empty());
        r
    }

    /// Sets the arguments of the command, in place of those it had.
    pub fn args(self, args: Vec<String>) -> (r: Self)
        ensures
            r@.wf(),
            r@ == (UwsmCommandView { args: texts_of(args@), ..self@ }),
    {
        proof {
            use_type_invariant(&self);
        }
        UwsmCommand { args, ..self }
    }

    /// Causes this command to spawn the program exactly once in the
    /// compositor's lifespan.
    pub fn once(self) -> (r: Self)
        ensures
            r@.wf(),
            r@ == (UwsmCommandView { once: true, ..self@ }),
    {
        proof {
            use_type_invariant(&self);
        }
        UwsmCommand { once: true, ..self }
    }

    /// Adds an argument to the command.
    pub fn arg(self, arg: &str) -> (r: Self)
        ensures
            r@.wf(),
            r@ == (UwsmCommandView { args: self@.args.push(arg@), ..self@ }),
    {
        proof {
            use_type_invariant(&self);
        }
        let mut args = self.args;
        args.push(arg.to_owned());
        assert(texts_of(args@) =~= self@.args.push(arg@));
        UwsmCommand { args, ..self }
    }

    /// Sets an environment variable that the process will spawn with.
    pub fn env(self, key: &str, value: &str) -> (r: Self)
        ensures
            r@.wf(),
            r@ == (UwsmCommandView { envs: bound(self@.envs, key@, value@), ..self@ }),
    {
        proof {
            use_type_invariant(&self);
            lemma_bound_inserts(self@.envs, key@, value@);
        }
        let mut envs = self.envs;
        bind(&mut envs, key.to_owned(), value.to_owned());
        UwsmCommand { envs, ..self }
    }

    /// Sets multiple environment variables that the process will spawn with.
    pub fn envs(self, vars: Vec<(String, String)>) -> (r: Self)
        ensures
            r@.wf(),
            r@ == (UwsmCommandView { envs: bound_all(self@.envs, pairs_of(vars@)), ..self@ }),
    {
        proof {
            use_type_invariant(&self);
        }
        let mut envs = self.envs;
        bind_all(&mut envs, vars);
        UwsmCommand { envs, ..self }
    }

    /// Causes this command to only spawn the program if it is the only
    /// instance currently running.
    pub fn unique(self) -> (r: Self)
        ensures
            r@.wf(),
            r@ == (UwsmCommandView { unique: true, ..self@ }),
    {
        proof {
            use_type_invariant(&self);
        }
        UwsmCommand { unique: true, ..self }
    }

    /// Sets up a pipe to allow the config to write to the process's stdin.
    pub fn pipe_stdin(self) -> (r: Self)
        ensures
            r@.wf(),
            r@ == (UwsmCommandView { pipe_stdin: true, ..self@ }),
    {
        proof {
            use_type_invariant(&self);
        }
        UwsmCommand { pipe_stdin: true, ..self }
    }

    /// Sets up a pipe to allow the config to read from the process's stdout.
    pub fn pipe_stdout(self) -> (r: Self)
        ensures
            r@.wf(),
            r@ == (UwsmCommandView { pipe_stdout: true, ..self@ }),
    {
        proof {
            use_type_invariant(&self);
        }
        UwsmCommand { pipe_stdout: true, ..self }
    }

    /// Sets up a pipe to allow the config to read from the process's stderr.
    pub fn pipe_stderr(self) -> (r: Self)
        ensures
            r@.wf(),
            r@ == (UwsmCommandView { pipe_stderr: true, ..self@ }),
    {
        proof {
            use_type_invariant(&self);
        }
        UwsmCommand { pipe_stderr: true, ..self }
    }

    /// Set the Systemd Unit type for the process -- this can either be
    /// `UnitType::Scope` or `UnitType::Service`.
    pub fn unit_type(self, u: UnitType) -> (r: Self)
        ensures
            r@.wf(),
            r@ == (UwsmCommandView { unit_type: Some(u), ..self@ }),
    {
        proof {
            use_type_invariant(&self);
        }
        UwsmCommand { unit_type: Some(u), ..self }
    }

    /// Choose the slice in which to run the process.
    pub fn slice_selector(self, s: SliceSelector) -> (r: Self)
        ensures
            r@.wf(),
            r@ == (UwsmCommandView { slice_selector: Some(s.text()), ..self@ }),
    {
        proof {
            use_type_invariant(&self);
        }
        UwsmCommand { slice_selector: Some(s), ..self }
    }

    /// Add a Systemd Unit property -- e.g. `PartOf` or `Description`.
    ///
    /// This is useful for setting resource quotas.
    pub fn unit_property(self, key: &str, value: &str) -> (r: Self)
        ensures
            r@.wf(),
            r@ == (UwsmCommandView {
                unit_properties: Some(
                    bound(
                        match self@.unit_properties {
                            Some(properties) => properties,
                            None => Seq::empty(),
                        },
                        key@,
                        value@,
                    ),
                ),
                ..self@
            }),
    {
        proof {
            use_type_invariant(&self);
        }
        let mut up = if let Some(up) = self.unit_properties {
            up
        } else {
            Vec::new()
        };
        proof {
            assert(self@.unit_properties is None ==> pairs_of(up@) =~= Seq::empty());
            lemma_bound_inserts(pairs_of(up@), key@, value@);
        }
        bind(&mut up, key.to_owned(), value.to_owned());
        UwsmCommand { unit_properties: Some(up), ..self }
    }

    /// Add Systemd Unit properties -- e.g. `PartOf` or `Description` -- in
    /// bulk.
    ///
    /// This is useful for setting resource quotas.
    pub fn unit_properties(self, vars: Vec<(String, String)>) -> (r: Self)
        ensures
            r@.wf(),
            r@ == (UwsmCommandView {
                unit_properties: Some(
                    bound_all(
                        match self@.unit_properties {
                            Some(properties) => properties,
                            None => Seq::empty(),
                        },
                        pairs_of(vars@),
                    ),
                ),
                ..self@
            }),
    {
        proof {
            use_type_invariant(&self);
        }
        let mut up = if let Some(up) = self.unit_properties {
            up
        } else {
            Vec::new()
        };
        proof {
            assert(self@.unit_properties is None ==> pairs_of(up@) =~= Seq::empty());
        }
        bind_all(&mut up, vars);
        UwsmCommand { unit_properties: Some(up), ..self }
    }

    /// All that is needed to spawn the command through `uwsm app`. The app
    /// is named by the file prefix of the command's path, or by the command
    /// as it is where its path has no file name.
    pub fn into_invocation(self) -> (r: Invocation)
        ensures
            r@ == self@.invocation(path_file_prefix(self@.command)),
            distinct_keys(r@.envs),
    {
        let prefix = file_prefix(self.command.as_str());
        self.into_invocation_named(prefix)
    }

    /// All that is needed to spawn the command through `uwsm app`, where
    /// `prefix` is the file prefix of the command's path, if it has one.
    pub fn into_invocation_named(self, prefix: Option<String>) -> (r: Invocation)
        ensures
            r@ == self@.invocation(text_of(prefix)),
            distinct_keys(r@.envs),
    {
        proof {
            use_type_invariant(&self);
        }
        let ghost view = self@;
        let ghost prefix_text = text_of(prefix);
        let UwsmCommand {
            command,
            args,
            once,
            envs,
            unique,
            pipe_stdin,
            pipe_stdout,
            pipe_stderr,
            unit_type,
            slice_selector,
            unit_properties,
        } = self;
        let app_name = match prefix {
            Some(name) => name,
            None => command.clone(),
        };
        let mut shell: Vec<String> = Vec::new();
        push_flag(&mut shell, "uwsm", "app".to_owned());
        push_flag(&mut shell, "-a", app_name);
        if let Some(ut) = unit_type {
            push_flag(&mut shell, "-t", ut.to_string());
        }
        if let Some(s) = slice_selector {
            push_flag(&mut shell, "-s", s.to_string());
        }
        if let Some(properties) = unit_properties {
            push_property_flags(&mut shell, &properties);
        }
        assert(texts_of(shell@) =~= view.shell(prefix_text));
        Invocation { shell, command, args, envs, once, unique, pipe_stdin, pipe_stdout, pipe_stderr }
    }
}

/// Add a flag and the word that goes with it to `shell`.
fn push_flag(shell: &mut Vec<String>, flag: &str, word: String)
    ensures
        texts_of(final(shell)@) == texts_of(old(shell)@) + seq![flag@, word@],
{
    shell.push(flag.to_owned());
    shell.push(word);
}

/// Add `-p name=value` to `shell` for each of `properties` in turn.
fn push_property_flags(shell: &mut Vec<String>, properties: &Vec<(String, String)>)
    ensures
        texts_of(final(shell)@) == texts_of(old(shell)@) + property_flags(pairs_of(properties@)),
{
    let ghost before = texts_of(shell@);
    let ghost all = pairs_of(properties@);
    let mut i: usize = 0;
    while i < properties.len()
        invariant
            i <= properties.len(),
            before == texts_of(old(shell)@),
            all == pairs_of(properties@),
            texts_of(shell@) == before + property_flags(all.take(i as int)),
        decreases properties.len() - i,
    {
        let mut flag = properties[i].0.clone();
        flag.append("=");
        flag.append(properties[i].1.as_str());
        push_flag(shell, "-p", flag);
        proof {
            assert(all.take(i + 1).drop_last() =~= all.take(i as int));
        }
        i = i + 1;
    }
    assert(all.take(i as int) =~= all);
}

/// Bind each pair of `vars` in `entries`, in turn.
fn bind_all(entries: &mut Vec<(String, String)>, vars: Vec<(String, String)>)
    ensures
        pairs_of(final(entries)@) == bound_all(pairs_of(old(entries)@), pairs_of(vars@)),
        distinct_keys(pairs_of(old(entries)@)) ==> distinct_keys(pairs_of(final(entries)@)),
{
    let ghost all = pairs_of(vars@);
    let ghost target = bound_all(pairs_of(entries@), all);
    let ghost started_distinct = distinct_keys(pairs_of(entries@));
    assert(all.skip(0) =~= all);
    for pair in it: vars
        invariant
            it.seq() == vars@,
            all == pairs_of(vars@),
            bound_all(pairs_of(entries@), all.skip(it.index())) == target,
            started_distinct ==> distinct_keys(pairs_of(entries@)),
    {
        let ghost done = it.index();
        let ghost current = pairs_of(entries@);
        let (key, value) = pair;
        proof {
            assert(all.skip(done).drop_first() =~= all.skip(done + 1));
            lemma_bound_inserts(current, key@, value@);
        }
        bind(entries, key, value);
    }
}

} // verus!
