//! Registration of the global shortcut, and the table of bindings that the
//! process holds.

use vstd::prelude::*;
use vstd::string::*;
use crate::host::{answered_by, commands_of, Exchange, HostReply};

verus! {

/// One shortcut as this process knows it: the key combination, the window
/// that its action toggles, and whether the host currently holds it.
#[derive(Clone, Debug, PartialEq, Eq)]
pub struct ShortcutBinding {
    pub key_combo: String,
    pub window: String,
    pub registered: bool,
}

/// A binding as contracts see it.
pub struct BindingView {
    pub key_combo: Seq<char>,
    pub window: Seq<char>,
    pub registered: bool,
}

impl View for ShortcutBinding {
    type V = BindingView;

    open spec fn view(&self) -> BindingView {
        BindingView { key_combo: self.key_combo@, window: self.window@, registered: self.registered }
    }
}

/// No key combination has two entries.
pub open spec fn distinct_combos(table: Seq<BindingView>) -> bool {
    forall|i: int, j: int|
        0 <= i < j < table.len() ==> (#[trigger] table[i]).key_combo != (#[trigger] table[j]).key_combo
}

/// Some entry of `table` is for `key_combo`.
pub open spec fn has_combo(table: Seq<BindingView>, key_combo: Seq<char>) -> bool {
    exists|i: int| 0 <= i < table.len() && (#[trigger] table[i]).key_combo == key_combo
}

/// The entry is for `key_combo` and the host holds it.
pub open spec fn is_active(binding: BindingView, key_combo: Seq<char>) -> bool {
    binding.key_combo == key_combo && binding.registered
}

/// How many entries of `table` are active bindings of `key_combo`.
pub open spec fn active_count(table: Seq<BindingView>, key_combo: Seq<char>) -> nat
    decreases table.len(),
{
    if table.len() == 0 {
        0
    } else {
        active_count(table.drop_last(), key_combo) + if is_active(table.last(), key_combo) {
            1nat
        } else {
            0nat
        }
    }
}

/// `table` with `binding` written into it: in place of the entry for the same
/// key combination where there is one, and at the end where there is none.
pub open spec fn recorded(table: Seq<BindingView>, binding: BindingView) -> Seq<BindingView> {
    if has_combo(table, binding.key_combo) {
        Seq::new(
            table.len(),
            |i: int|
                if table[i].key_combo == binding.key_combo {
                    binding
                } else {
                    table[i]
                },
        )
    } else {
        table.push(binding)
    }
}

/// An entry for another key combination never counts.
pub proof fn lemma_absent_combo_counts_zero(table: Seq<BindingView>, key_combo: Seq<char>)
    requires
        !has_combo(table, key_combo),
    ensures
        active_count(table, key_combo) == 0,
    decreases table.len(),
{
    if table.len() > 0 {
        let front = table.drop_last();
        assert forall|i: int| 0 <= i < front.len() implies (#[trigger] front[i]).key_combo
            != key_combo by {
            assert(front[i] == table[i]);
        }
        lemma_absent_combo_counts_zero(front, key_combo);
        assert(table.last() == table[table.len() - 1]);
    }
}

/// In a table without repeated key combinations a combination has at most
/// one active binding, and has one exactly when some entry is active for it.
pub proof fn lemma_active_count_of_distinct(table: Seq<BindingView>, key_combo: Seq<char>)
    requires
        distinct_combos(table),
    ensures
        active_count(table, key_combo) <= 1,
        active_count(table, key_combo) == 1 <==> exists|i: int|
            0 <= i < table.len() && is_active(#[trigger] table[i], key_combo),
    decreases table.len(),
{
    if table.len() > 0 {
        let front = table.drop_last();
        let end = table.len() - 1;
        assert forall|i: int| 0 <= i < front.len() implies #[trigger] front[i] == table[i] by {}
        lemma_active_count_of_distinct(front, key_combo);
        if table.last().key_combo == key_combo {
            assert(!has_combo(front, key_combo)) by {
                if has_combo(front, key_combo) {
                    let i = choose|i: int|
                        0 <= i < front.len() && (#[trigger] front[i]).key_combo == key_combo;
                    assert(front[i] == table[i]);
                    assert(table[i].key_combo != table[end].key_combo);
                }
            }
            lemma_absent_combo_counts_zero(front, key_combo);
            if table.last().registered {
                assert(is_active(table[end], key_combo));
            } else {
                assert forall|i: int| 0 <= i < table.len() implies !is_active(
                    #[trigger] table[i],
                    key_combo,
                ) by {
                    if i < end {
                        assert(front[i] == table[i]);
                    }
                }
            }
        } else {
            if active_count(front, key_combo) == 1 {
                let i = choose|i: int| 0 <= i < front.len() && is_active(#[trigger] front[i], key_combo);
                assert(is_active(table[i], key_combo));
            } else {
                assert forall|i: int| 0 <= i < table.len() implies !is_active(
                    #[trigger] table[i],
                    key_combo,
                ) by {
                    if i < end {
                        assert(front[i] == table[i]);
                    }
                }
            }
        }
    }
}

/// Writing a binding into a table without repeated key combinations leaves
/// it without repeated key combinations.
pub proof fn lemma_recorded_keeps_distinct(table: Seq<BindingView>, binding: BindingView)
    requires
        distinct_combos(table),
    ensures
        distinct_combos(recorded(table, binding)),
{
    let after = recorded(table, binding);
    assert forall|i: int, j: int| 0 <= i < j < after.len() implies (#[trigger] after[i]).key_combo
        != (#[trigger] after[j]).key_combo by {
        if has_combo(table, binding.key_combo) {
            assert(table[i].key_combo != table[j].key_combo);
        } else if j == table.len() {
            assert(after[i] == table[i]);
        } else {
            assert(after[i] == table[i]);
            assert(after[j] == table[j]);
            assert(table[i].key_combo != table[j].key_combo);
        }
    }
}

/// After a binding is written, its key combination has one active binding if
/// the binding is registered and none if it is not; every other key
/// combination keeps the count it had.
pub proof fn lemma_recorded_counts(
    table: Seq<BindingView>,
    binding: BindingView,
    key_combo: Seq<char>,
)
    requires
        distinct_combos(table),
    ensures
        key_combo == binding.key_combo ==> active_count(recorded(table, binding), key_combo) == (
        if binding.registered {
            1nat
        } else {
            0nat
        }),
        key_combo != binding.key_combo ==> active_count(recorded(table, binding), key_combo)
            == active_count(table, key_combo),
{
    let after = recorded(table, binding);
    lemma_recorded_keeps_distinct(table, binding);
    lemma_active_count_of_distinct(table, key_combo);
    lemma_active_count_of_distinct(after, key_combo);
    if key_combo == binding.key_combo {
        if binding.registered {
            if has_combo(table, binding.key_combo) {
                let i = choose|i: int|
                    0 <= i < table.len() && (#[trigger] table[i]).key_combo == binding.key_combo;
                assert(is_active(after[i], key_combo));
            } else {
                assert(is_active(after[table.len() as int], key_combo));
            }
        } else {
            assert forall|i: int| 0 <= i < after.len() implies !is_active(
                #[trigger] after[i],
                key_combo,
            ) by {
                if !has_combo(table, binding.key_combo) && i < table.len() {
                    assert(after[i] == table[i]);
                }
            }
        }
    } else {
        if exists|i: int| 0 <= i < table.len() && is_active(#[trigger] table[i], key_combo) {
            let i = choose|i: int| 0 <= i < table.len() && is_active(#[trigger] table[i], key_combo);
            assert(is_active(after[i], key_combo));
        }
        if exists|i: int| 0 <= i < after.len() && is_active(#[trigger] after[i], key_combo) {
            let i = choose|i: int| 0 <= i < after.len() && is_active(#[trigger] after[i], key_combo);
            assert(i < table.len());
            assert(is_active(table[i], key_combo));
        }
    }
}

/// A request that a registration makes of the host.
#[derive(Clone, Copy, Debug, PartialEq, Eq, Structural)]
pub enum ShortcutCommand {
    /// Ask whether the window that the shortcut is to toggle exists.
    ResolveWindow,
    /// Ask whether the key combination is already registered.
    QueryRegistered,
    /// Release the key combination.
    Unregister,
    /// Claim the key combination for the toggle action.
    Register,
}

/// Why a registration did not bind the shortcut.
#[derive(Clone, Debug, PartialEq, Eq)]
pub enum RegistrationError {
    /// The window to toggle does not exist. Nothing was asked of the
    /// shortcut manager.
    WindowNotFound,
    /// The host refused the key combination, for the reason it gave.
    RegistrationFailed(String),
}

impl RegistrationError {
    /// The line that describes the error to whoever reads the diagnostics.
    pub open spec fn message_text(self) -> Seq<char> {
        match self {
            RegistrationError::WindowNotFound => "Window not found"@,
            RegistrationError::RegistrationFailed(reason) => "Failed to register shortcut: "@
                + reason@,
        }
    }

    /// Whether startup has to end on this error. Only a missing window ends
    /// it: without the shortcut the application runs on.
    pub fn is_fatal(&self) -> (fatal: bool)
        ensures
            fatal == (self is WindowNotFound),
    {
        match self {
            RegistrationError::WindowNotFound => true,
            RegistrationError::RegistrationFailed(_) => false,
        }
    }

    /// The error as a line of text.
    pub fn message(&self) -> (text: String)
        ensures
            text@ == self.message_text(),
    {
        match self {
            RegistrationError::WindowNotFound => "Window not found".to_owned(),
            RegistrationError::RegistrationFailed(reason) => {
                "Failed to register shortcut: ".to_owned().concat(reason.as_str())
            },
        }
    }
}

/// The request that follows `pending` once the host has answered it with
/// `reply`, or `None` when the registration is finished.
///
/// Without the window nothing further is asked. The key combination is
/// released first only on a plain "registered": a failed query is read as
/// "not registered". Whatever the release answers, the claim follows.
pub open spec fn following(pending: ShortcutCommand, reply: HostReply) -> Option<ShortcutCommand> {
    match pending {
        ShortcutCommand::ResolveWindow => if reply.affirms() {
            Some(ShortcutCommand::QueryRegistered)
        } else {
            None
        },
        ShortcutCommand::QueryRegistered => if reply.affirms() {
            Some(ShortcutCommand::Unregister)
        } else {
            Some(ShortcutCommand::Register)
        },
        ShortcutCommand::Unregister => Some(ShortcutCommand::Register),
        ShortcutCommand::Register => None,
    }
}

/// Decides the next request from the one just answered and its reply.
pub fn next_command(pending: ShortcutCommand, reply: &HostReply) -> (next: Option<ShortcutCommand>)
    ensures
        next == following(pending, *reply),
{
    match pending {
        ShortcutCommand::ResolveWindow => {
            if reply.is_yes() {
                Some(ShortcutCommand::QueryRegistered)
            } else {
                None
            }
        },
        ShortcutCommand::QueryRegistered => {
            if reply.is_yes() {
                Some(ShortcutCommand::Unregister)
            } else {
                Some(ShortcutCommand::Register)
            }
        },
        ShortcutCommand::Unregister => Some(ShortcutCommand::Register),
        ShortcutCommand::Register => None,
    }
}

/// How many requests can still follow `command`.
pub open spec fn steps_after(command: ShortcutCommand) -> nat {
    match command {
        ShortcutCommand::ResolveWindow => 3,
        ShortcutCommand::QueryRegistered => 2,
        ShortcutCommand::Unregister => 1,
        ShortcutCommand::Register => 0,
    }
}

/// `run` is the beginning of a registration: it opens with the window lookup
/// and each later request is the one that follows from the exchange before it.
pub open spec fn is_registration_prefix(run: Seq<Exchange<ShortcutCommand>>) -> bool {
    &&& run.len() > 0
    &&& run[0].command == ShortcutCommand::ResolveWindow
    &&& forall|i: int, j: int|
        #![trigger run[i], run[j]]
        0 <= i && j == i + 1 && j < run.len() ==> following(run[i].command, run[i].reply) == Some(
            run[j].command,
        )
}

/// `run` is one whole registration: a prefix after whose last exchange
/// nothing follows.
pub open spec fn is_registration_run(run: Seq<Exchange<ShortcutCommand>>) -> bool {
    &&& is_registration_prefix(run)
    &&& following(run.last().command, run.last().reply) is None
}

/// What a whole registration reports: the window was not found; or the host
/// refused the claim, which is the last request of the run; or the shortcut
/// is bound. The reply to a release plays no part.
pub open spec fn outcome(run: Seq<Exchange<ShortcutCommand>>) -> Result<(), RegistrationError> {
    if !run[0].reply.affirms() {
        Err(RegistrationError::WindowNotFound)
    } else {
        match run.last().reply {
            HostReply::Failed(reason) => Err(RegistrationError::RegistrationFailed(reason)),
            _ => Ok(()),
        }
    }
}

/// The requests of a whole registration are fixed by the replies to the two
/// questions; the last request of a run that found the window is the claim.
pub proof fn lemma_registration_run_shape(run: Seq<Exchange<ShortcutCommand>>)
    requires
        is_registration_run(run),
    ensures
        1 <= run.len() <= 4,
        !run[0].reply.affirms() ==> commands_of(run) == seq![ShortcutCommand::ResolveWindow],
        run[0].reply.affirms() ==> run.len() >= 3 && run.last().command
            == ShortcutCommand::Register,
        run[0].reply.affirms() && run[1].reply.affirms() ==> commands_of(run) == seq![
            ShortcutCommand::ResolveWindow,
            ShortcutCommand::QueryRegistered,
            ShortcutCommand::Unregister,
            ShortcutCommand::Register,
        ],
        run[0].reply.affirms() && !run[1].reply.affirms() ==> commands_of(run) == seq![
            ShortcutCommand::ResolveWindow,
            ShortcutCommand::QueryRegistered,
            ShortcutCommand::Register,
        ],
{
    if run.len() >= 2 {
        assert(following(run[0].command, run[0].reply) == Some(run[1].command));
        if run.len() >= 3 {
            assert(following(run[1].command, run[1].reply) == Some(run[2].command));
            if run.len() >= 4 {
                assert(following(run[2].command, run[2].reply) == Some(run[3].command));
                if run.len() >= 5 {
                    assert(following(run[3].command, run[3].reply) == Some(run[4].command));
                }
            }
        }
    }
    if !run[0].reply.affirms() {
        assert(commands_of(run) =~= seq![ShortcutCommand::ResolveWindow]);
    } else if run[1].reply.affirms() {
        assert(commands_of(run) =~= seq![
            ShortcutCommand::ResolveWindow,
            ShortcutCommand::QueryRegistered,
            ShortcutCommand::Unregister,
            ShortcutCommand::Register,
        ]);
    } else {
        assert(commands_of(run) =~= seq![
            ShortcutCommand::ResolveWindow,
            ShortcutCommand::QueryRegistered,
            ShortcutCommand::Register,
        ]);
    }
}

/// The table after a registration of `key_combo` for `window` that reported
/// `result`. A missing window leaves the table as it was. Otherwise the
/// binding is written, active if the claim succeeded and inactive if not.
pub open spec fn table_after(
    table: Seq<BindingView>,
    key_combo: Seq<char>,
    window: Seq<char>,
    result: Result<(), RegistrationError>,
) -> Seq<BindingView> {
    if result == Err::<(), RegistrationError>(RegistrationError::WindowNotFound) {
        table
    } else {
        recorded(table, BindingView { key_combo, window, registered: result is Ok })
    }
}

/// What one registration did: its result and the whole exchange with the
/// host, oldest first.
#[derive(Debug)]
pub struct Registration {
    pub result: Result<(), RegistrationError>,
    pub run: Vec<Exchange<ShortcutCommand>>,
}

/// The bindings that this process holds, at most one for each key
/// combination.
#[derive(Debug)]
pub struct BindingTable {
    bindings: Vec<ShortcutBinding>,
}

impl View for BindingTable {
    type V = Seq<BindingView>;

    closed spec fn view(&self) -> Seq<BindingView> {
        Seq::new(self.bindings@.len(), |i: int| self.bindings@[i]@)
    }
}

impl BindingTable {
    /// The table is well formed: no key combination has two entries.
    pub open spec fn wf(&self) -> bool {
        distinct_combos(self@)
    }

    /// A table without bindings.
    pub fn new() -> (table: BindingTable)
        ensures
            table@ == Seq::<BindingView>::empty(),
            table.wf(),
    {
        let table = BindingTable { bindings: Vec::new() };
        assert(table@ =~= Seq::<BindingView>::empty());
        table
    }

    /// The number of entries, active or not.
    pub fn len(&self) -> (n: usize)
        ensures
            n == self@.len(),
    {
        self.bindings.len()
    }

    /// The number of active bindings of `key_combo`: one or none.
    pub fn active_bindings(&self, key_combo: &str) -> (n: usize)
        requires
            self.wf(),
        ensures
            n == active_count(self@, key_combo@),
            n <= 1,
    {
        proof {
            lemma_active_count_of_distinct(self@, key_combo@);
        }
        let wanted = key_combo.to_owned();
        let mut n: usize = 0;
        let mut i: usize = 0;
        while i < self.bindings.len()
            invariant
                i <= self.bindings.len(),
                wanted@ == key_combo@,
                n == active_count(self@.take(i as int), key_combo@),
                active_count(self@, key_combo@) <= 1,
                n <= 1,
            decreases self.bindings.len() - i,
        {
            let entry = &self.bindings[i];
            let ghost before = self@.take(i as int);
            let ghost after = self@.take(i + 1);
            proof {
                assert(after.drop_last() =~= before);
                assert(after.last() == self@[i as int]);
                lemma_count_of_prefix(self@, key_combo@, i + 1);
            }
            if entry.registered && entry.key_combo == wanted {
                n = n + 1;
            }
            i = i + 1;
        }
        assert(self@.take(i as int) =~= self@);
        n
    }

    /// Writes `binding` into the table: over the entry for the same key
    /// combination where there is one, at the end where there is none.
    pub fn record(&mut self, binding: ShortcutBinding)
        requires
            old(self).wf(),
        ensures
            final(self)@ == recorded(old(self)@, binding@),
            final(self).wf(),
    {
        proof {
            lemma_recorded_keeps_distinct(self@, binding@);
        }
        let ghost before = self@;
        let mut i: usize = 0;
        while i < self.bindings.len()
            invariant
                i <= self.bindings.len(),
                self@ == before,
                before == old(self)@,
                distinct_combos(before),
                distinct_combos(recorded(before, binding@)),
                forall|k: int| 0 <= k < i ==> (#[trigger] before[k]).key_combo != binding@.key_combo,
            decreases self.bindings.len() - i,
        {
            if self.bindings[i].key_combo == binding.key_combo {
                proof {
                    assert(before[i as int].key_combo == binding@.key_combo);
                    assert(has_combo(before, binding@.key_combo));
                    assert forall|k: int| 0 <= k < before.len() && k != i implies (
                    #[trigger] before[k]).key_combo != binding@.key_combo by {
                        if k < i {
                        } else {
                            assert(before[i as int].key_combo != before[k].key_combo);
                        }
                    }
                    assert(before.update(i as int, binding@) =~= recorded(before, binding@));
                }
                let ghost written = binding@;
                self.bindings.set(i, binding);
                assert(self@ =~= before.update(i as int, written));
                return ;
            }
            i = i + 1;
        }
        proof {
            assert(!has_combo(before, binding@.key_combo));
        }
        let ghost written = binding@;
        self.bindings.push(binding);
        assert(self@ =~= before.push(written));
    }

    /// Registers `key_combo` as the shortcut that toggles `window`, against
    /// `host`, and keeps the table in step with what the host answered.
    ///
    /// The window is looked up first; without it the call reports
    /// `WindowNotFound`, asks nothing more and leaves the table alone. If the
    /// host says that the key combination is registered already, it is
    /// released before it is claimed again; a failure of that release is
    /// ignored. A refused claim is reported as `RegistrationFailed` with the
    /// host's reason and leaves the key combination without an active binding.
    pub fn register<H: Fn(ShortcutCommand) -> HostReply>(
        &mut self,
        key_combo: &str,
        window: &str,
        host: H,
    ) -> (done: Registration)
        requires
            old(self).wf(),
            forall|command: ShortcutCommand| call_requires(host, (command,)),
        ensures
            final(self).wf(),
            is_registration_run(done.run@),
            answered_by(host, done.run@),
            1 <= done.run.len() <= 4,
            done.result == outcome(done.run@),
            final(self)@ == table_after(old(self)@, key_combo@, window@, done.result),
            done.result is Ok ==> active_count(final(self)@, key_combo@) == 1,
            done.result is Err && done.result != Err::<(), RegistrationError>(
                RegistrationError::WindowNotFound,
            ) ==> active_count(final(self)@, key_combo@) == 0,
            !done.run@[0].reply.affirms() ==> commands_of(done.run@) == seq![
                ShortcutCommand::ResolveWindow,
            ],
            done.run@[0].reply.affirms() && done.run@[1].reply.affirms() ==> commands_of(done.run@)
                == seq![
                ShortcutCommand::ResolveWindow,
                ShortcutCommand::QueryRegistered,
                ShortcutCommand::Unregister,
                ShortcutCommand::Register,
            ],
            done.run@[0].reply.affirms() && !done.run@[1].reply.affirms() ==> commands_of(done.run@)
                == seq![
                ShortcutCommand::ResolveWindow,
                ShortcutCommand::QueryRegistered,
                ShortcutCommand::Register,
            ],
    {
        let mut run: Vec<Exchange<ShortcutCommand>> = Vec::new();
        let mut command = ShortcutCommand::ResolveWindow;
        loop
            invariant_except_break
                forall|c: ShortcutCommand| call_requires(host, (c,)),
                answered_by(host, run@),
                run.len() == 0 ==> command == ShortcutCommand::ResolveWindow,
                run.len() > 0 ==> is_registration_prefix(run@) && following(
                    run@.last().command,
                    run@.last().reply,
                ) == Some(command),
            ensures
                is_registration_run(run@),
                answered_by(host, run@),
            decreases steps_after(command),
        {
            let reply = host(command);
            let next = next_command(command, &reply);
            let ghost before = run@;
            run.push(Exchange { command, reply });
            proof {
                assert(run@.drop_last() == before);
                assert forall|i: int, j: int|
                    #![trigger run@[i], run@[j]]
                    0 <= i && j == i + 1 && j < run.len() implies following(
                    run@[i].command,
                    run@[i].reply,
                ) == Some(run@[j].command) by {
                    if j < before.len() {
                        assert(run@[i] == before[i]);
                        assert(run@[j] == before[j]);
                    }
                }
            }
            match next {
                Some(upcoming) => {
                    command = upcoming;
                },
                None => {
                    break ;
                },
            }
        }
        proof {
            lemma_registration_run_shape(run@);
        }
        let found = run[0].reply.is_yes();
        let result: Result<(), RegistrationError> = if !found {
            Err(RegistrationError::WindowNotFound)
        } else {
            match &run[run.len() - 1].reply {
                HostReply::Failed(reason) => Err(
                    RegistrationError::RegistrationFailed(reason.clone()),
                ),
                _ => Ok(()),
            }
        };
        if found {
            let binding = ShortcutBinding {
                key_combo: key_combo.to_owned(),
                window: window.to_owned(),
                registered: result.is_ok(),
            };
            proof {
                lemma_recorded_counts(self@, binding@, key_combo@);
            }
            self.record(binding);
        }
        Registration { result, run }
    }

    /// The entry for `key_combo`, active or not, if the table has one.
    pub fn binding(&self, key_combo: &str) -> (found: Option<&ShortcutBinding>)
        ensures
            found is Some <==> has_combo(self@, key_combo@),
            found matches Some(entry) ==> entry@.key_combo == key_combo@ && self@.contains(entry@),
    {
        let wanted = key_combo.to_owned();
        let mut i: usize = 0;
        while i < self.bindings.len()
            invariant
                i <= self.bindings.len(),
                wanted@ == key_combo@,
                forall|k: int| 0 <= k < i ==> (#[trigger] self@[k]).key_combo != key_combo@,
            decreases self.bindings.len() - i,
        {
            if self.bindings[i].key_combo == wanted {
                assert(self@[i as int] == self.bindings[i as int]@);
                return Some(&self.bindings[i]);
            }
            i = i + 1;
        }
        None
    }

    /// Whether `key_combo` has an active binding.
    pub fn is_bound(&self, key_combo: &str) -> (bound: bool)
        requires
            self.wf(),
        ensures
            bound == (active_count(self@, key_combo@) == 1),
    {
        self.active_bindings(key_combo) == 1
    }
}

/// A prefix of a table has no more active bindings than the table.
pub proof fn lemma_count_of_prefix(table: Seq<BindingView>, key_combo: Seq<char>, n: int)
    requires
        0 <= n <= table.len(),
    ensures
        active_count(table.take(n), key_combo) <= active_count(table, key_combo),
    decreases table.len() - n,
{
    if n < table.len() {
        lemma_count_of_prefix(table, key_combo, n + 1);
        assert(table.take(n + 1).drop_last() =~= table.take(n));
    } else {
        assert(table.take(n) =~= table);
    }
}

/// The table after one registration of `key_combo` for `window` for each
/// result in `results`, in order.
pub open spec fn after_all(
    table: Seq<BindingView>,
    key_combo: Seq<char>,
    window: Seq<char>,
    results: Seq<Result<(), RegistrationError>>,
) -> Seq<BindingView>
    decreases results.len(),
{
    if results.len() == 0 {
        table
    } else {
        table_after(
            after_all(table, key_combo, window, results.drop_last()),
            key_combo,
            window,
            results.last(),
        )
    }
}

/// Whether the shortcut is bound after registrations that reported
/// `results`, if it was bound before them exactly when `initially` holds:
/// the last registration that found its window decides, and without one the
/// shortcut is as it was.
pub open spec fn bound_after(initially: bool, results: Seq<Result<(), RegistrationError>>) -> bool
    decreases results.len(),
{
    if results.len() == 0 {
        initially
    } else if results.last() is Ok {
        true
    } else if results.last() == Err::<(), RegistrationError>(RegistrationError::WindowNotFound) {
        bound_after(initially, results.drop_last())
    } else {
        false
    }
}

/// However often one key combination is registered for one window, and
/// whatever each registration reports, the table keeps at most one active
/// binding of it; it has exactly one when the last registration that found
/// its window succeeded, or when none found it and one was there before.
pub proof fn lemma_repeated_registration(
    table: Seq<BindingView>,
    key_combo: Seq<char>,
    window: Seq<char>,
    results: Seq<Result<(), RegistrationError>>,
)
    requires
        distinct_combos(table),
    ensures
        distinct_combos(after_all(table, key_combo, window, results)),
        active_count(after_all(table, key_combo, window, results), key_combo) <= 1,
        active_count(after_all(table, key_combo, window, results), key_combo) == 1 <==> bound_after(
            active_count(table, key_combo) == 1,
            results,
        ),
    decreases results.len(),
{
    if results.len() == 0 {
        lemma_active_count_of_distinct(table, key_combo);
    } else {
        let earlier = after_all(table, key_combo, window, results.drop_last());
        lemma_repeated_registration(table, key_combo, window, results.drop_last());
        let binding = BindingView { key_combo, window, registered: results.last() is Ok };
        lemma_recorded_keeps_distinct(earlier, binding);
        lemma_recorded_counts(earlier, binding, key_combo);
    }
}

/// Registration is idempotent: after any number of registrations of one key
/// combination for one window, one at least, each of which succeeded, the
/// table holds exactly one active binding of that key combination.
pub proof fn lemma_registration_is_idempotent(
    table: Seq<BindingView>,
    key_combo: Seq<char>,
    window: Seq<char>,
    results: Seq<Result<(), RegistrationError>>,
)
    requires
        distinct_combos(table),
        results.len() > 0,
        forall|i: int| 0 <= i < results.len() ==> #[trigger] results[i] is Ok,
    ensures
        active_count(after_all(table, key_combo, window, results), key_combo) == 1,
{
    lemma_repeated_registration(table, key_combo, window, results);
    assert(results.last() == results[results.len() - 1]);
}

} // verus!
