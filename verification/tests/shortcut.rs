use std::cell::RefCell;

use visibility_toggle::host::{Exchange, HostReply};
use visibility_toggle::shortcut::{
    next_command, BindingTable, RegistrationError, ShortcutBinding, ShortcutCommand,
};

const COMBO: &str = "Alt+Space";
const WINDOW: &str = "main";

/// A shortcut manager for one key combination, with the faults a test asks for.
struct FakeHost {
    window_exists: bool,
    registered: bool,
    query_fails: bool,
    unregister_fails: bool,
    refusal: Option<String>,
    asked: Vec<ShortcutCommand>,
}

impl FakeHost {
    fn new() -> FakeHost {
        FakeHost {
            window_exists: true,
            registered: false,
            query_fails: false,
            unregister_fails: false,
            refusal: None,
            asked: Vec::new(),
        }
    }

    fn answer(&mut self, command: ShortcutCommand) -> HostReply {
        self.asked.push(command);
        match command {
            ShortcutCommand::ResolveWindow => HostReply::Answer(self.window_exists),
            ShortcutCommand::QueryRegistered => {
                if self.query_fails {
                    HostReply::Failed("query failed".to_string())
                } else {
                    HostReply::Answer(self.registered)
                }
            }
            ShortcutCommand::Unregister => {
                if self.unregister_fails {
                    HostReply::Failed("not registered".to_string())
                } else {
                    self.registered = false;
                    HostReply::Done
                }
            }
            ShortcutCommand::Register => match &self.refusal {
                Some(reason) => HostReply::Failed(reason.clone()),
                None => {
                    self.registered = true;
                    HostReply::Done
                }
            },
        }
    }
}

fn commands(run: &Vec<Exchange<ShortcutCommand>>) -> Vec<ShortcutCommand> {
    run.iter().map(|exchange| exchange.command).collect()
}

fn failure(reason: &str) -> HostReply {
    HostReply::Failed(reason.to_string())
}

#[test]
fn first_registration_claims_without_release() {
    let host = RefCell::new(FakeHost::new());
    let mut table = BindingTable::new();
    let done = table.register(COMBO, WINDOW, |command| host.borrow_mut().answer(command));
    assert_eq!(done.result, Ok(()));
    assert_eq!(
        commands(&done.run),
        vec![
            ShortcutCommand::ResolveWindow,
            ShortcutCommand::QueryRegistered,
            ShortcutCommand::Register
        ]
    );
    assert_eq!(table.len(), 1);
    assert_eq!(table.active_bindings(COMBO), 1);
    assert!(table.is_bound(COMBO));
    assert!(host.borrow().registered);
}

#[test]
fn second_registration_releases_then_claims_and_leaves_one_binding() {
    let host = RefCell::new(FakeHost::new());
    let mut table = BindingTable::new();
    let first = table.register(COMBO, WINDOW, |command| host.borrow_mut().answer(command));
    assert_eq!(first.result, Ok(()));

    let second = table.register(COMBO, WINDOW, |command| host.borrow_mut().answer(command));
    assert_eq!(second.result, Ok(()));
    assert_eq!(
        commands(&second.run),
        vec![
            ShortcutCommand::ResolveWindow,
            ShortcutCommand::QueryRegistered,
            ShortcutCommand::Unregister,
            ShortcutCommand::Register
        ]
    );
    assert_eq!(table.len(), 1);
    assert_eq!(table.active_bindings(COMBO), 1);
    assert!(host.borrow().registered);
}

#[test]
fn second_registration_succeeds_though_release_reports_not_registered() {
    let host = RefCell::new(FakeHost::new());
    let mut table = BindingTable::new();
    let first = table.register(COMBO, WINDOW, |command| host.borrow_mut().answer(command));
    assert_eq!(first.result, Ok(()));

    host.borrow_mut().unregister_fails = true;
    let second = table.register(COMBO, WINDOW, |command| host.borrow_mut().answer(command));
    assert_eq!(second.result, Ok(()));
    assert_eq!(
        commands(&second.run),
        vec![
            ShortcutCommand::ResolveWindow,
            ShortcutCommand::QueryRegistered,
            ShortcutCommand::Unregister,
            ShortcutCommand::Register
        ]
    );
    assert_eq!(second.run[2].reply, failure("not registered"));
    assert_eq!(table.len(), 1);
    assert_eq!(table.active_bindings(COMBO), 1);
}

#[test]
fn many_registrations_leave_exactly_one_active_binding() {
    let host = RefCell::new(FakeHost::new());
    let mut table = BindingTable::new();
    for _ in 0..5 {
        let done = table.register(COMBO, WINDOW, |command| host.borrow_mut().answer(command));
        assert_eq!(done.result, Ok(()));
        assert_eq!(table.active_bindings(COMBO), 1);
    }
    assert_eq!(table.len(), 1);
    assert!(table.is_bound(COMBO));
}

#[test]
fn missing_window_is_reported_and_nothing_else_is_asked() {
    let host = RefCell::new(FakeHost::new());
    host.borrow_mut().window_exists = false;
    let mut table = BindingTable::new();
    let done = table.register(COMBO, WINDOW, |command| host.borrow_mut().answer(command));
    assert_eq!(done.result, Err(RegistrationError::WindowNotFound));
    assert_eq!(commands(&done.run), vec![ShortcutCommand::ResolveWindow]);
    assert_eq!(host.borrow().asked, vec![ShortcutCommand::ResolveWindow]);
    assert_eq!(table.len(), 0);
    assert_eq!(table.active_bindings(COMBO), 0);
    assert!(!table.is_bound(COMBO));
}

#[test]
fn missing_window_leaves_an_earlier_binding_alone() {
    let host = RefCell::new(FakeHost::new());
    let mut table = BindingTable::new();
    let first = table.register(COMBO, WINDOW, |command| host.borrow_mut().answer(command));
    assert_eq!(first.result, Ok(()));

    host.borrow_mut().window_exists = false;
    let second = table.register(COMBO, WINDOW, |command| host.borrow_mut().answer(command));
    assert_eq!(second.result, Err(RegistrationError::WindowNotFound));
    assert_eq!(table.len(), 1);
    assert_eq!(table.active_bindings(COMBO), 1);
}

#[test]
fn refused_claim_is_reported_with_the_hosts_reason() {
    let host = RefCell::new(FakeHost::new());
    host.borrow_mut().refusal = Some("claimed by another process".to_string());
    let mut table = BindingTable::new();
    let done = table.register(COMBO, WINDOW, |command| host.borrow_mut().answer(command));
    assert_eq!(
        done.result,
        Err(RegistrationError::RegistrationFailed("claimed by another process".to_string()))
    );
    assert_eq!(
        commands(&done.run),
        vec![
            ShortcutCommand::ResolveWindow,
            ShortcutCommand::QueryRegistered,
            ShortcutCommand::Register
        ]
    );
    assert_eq!(table.len(), 1);
    assert_eq!(table.active_bindings(COMBO), 0);
    assert!(!table.is_bound(COMBO));
}

#[test]
fn refused_claim_after_a_binding_leaves_the_shortcut_unbound() {
    let host = RefCell::new(FakeHost::new());
    let mut table = BindingTable::new();
    let first = table.register(COMBO, WINDOW, |command| host.borrow_mut().answer(command));
    assert_eq!(first.result, Ok(()));
    assert!(table.is_bound(COMBO));

    host.borrow_mut().refusal = Some("rejected".to_string());
    let second = table.register(COMBO, WINDOW, |command| host.borrow_mut().answer(command));
    assert_eq!(second.result, Err(RegistrationError::RegistrationFailed("rejected".to_string())));
    assert_eq!(table.len(), 1);
    assert_eq!(table.active_bindings(COMBO), 0);

    host.borrow_mut().refusal = None;
    let third = table.register(COMBO, WINDOW, |command| host.borrow_mut().answer(command));
    assert_eq!(third.result, Ok(()));
    assert_eq!(table.len(), 1);
    assert_eq!(table.active_bindings(COMBO), 1);
}

#[test]
fn failed_registration_query_is_read_as_not_registered() {
    let host = RefCell::new(FakeHost::new());
    host.borrow_mut().registered = true;
    host.borrow_mut().query_fails = true;
    let mut table = BindingTable::new();
    let done = table.register(COMBO, WINDOW, |command| host.borrow_mut().answer(command));
    assert_eq!(done.result, Ok(()));
    assert_eq!(
        commands(&done.run),
        vec![
            ShortcutCommand::ResolveWindow,
            ShortcutCommand::QueryRegistered,
            ShortcutCommand::Register
        ]
    );
    assert_eq!(done.run[1].reply, failure("query failed"));
}

#[test]
fn bindings_of_other_key_combinations_are_kept_apart() {
    let host = RefCell::new(FakeHost::new());
    let mut table = BindingTable::new();
    let first = table.register(COMBO, WINDOW, |command| host.borrow_mut().answer(command));
    assert_eq!(first.result, Ok(()));

    let other = RefCell::new(FakeHost::new());
    other.borrow_mut().refusal = Some("taken".to_string());
    let second = table.register("Ctrl+K", WINDOW, |command| other.borrow_mut().answer(command));
    assert_eq!(second.result, Err(RegistrationError::RegistrationFailed("taken".to_string())));

    assert_eq!(table.len(), 2);
    assert_eq!(table.active_bindings(COMBO), 1);
    assert_eq!(table.active_bindings("Ctrl+K"), 0);
    assert_eq!(table.active_bindings("Ctrl+J"), 0);
}

#[test]
fn record_replaces_the_entry_of_the_same_key_combination() {
    let mut table = BindingTable::new();
    table.record(ShortcutBinding {
        key_combo: COMBO.to_string(),
        window: WINDOW.to_string(),
        registered: true,
    });
    table.record(ShortcutBinding {
        key_combo: "Ctrl+K".to_string(),
        window: WINDOW.to_string(),
        registered: true,
    });
    assert_eq!(table.len(), 2);
    table.record(ShortcutBinding {
        key_combo: COMBO.to_string(),
        window: "settings".to_string(),
        registered: false,
    });
    assert_eq!(table.len(), 2);
    assert_eq!(table.active_bindings(COMBO), 0);
    assert_eq!(table.active_bindings("Ctrl+K"), 1);
}

#[test]
fn new_table_is_empty() {
    let table = BindingTable::new();
    assert_eq!(table.len(), 0);
    assert!(!table.is_bound(COMBO));
}

#[test]
fn next_shortcut_command_after_window_lookup() {
    let lookup = ShortcutCommand::ResolveWindow;
    assert_eq!(
        next_command(lookup, &HostReply::Answer(true)),
        Some(ShortcutCommand::QueryRegistered)
    );
    assert_eq!(next_command(lookup, &HostReply::Answer(false)), None);
    assert_eq!(next_command(lookup, &failure("no such window")), None);
    assert_eq!(next_command(lookup, &HostReply::Done), None);
}

#[test]
fn next_shortcut_command_after_registration_query() {
    let query = ShortcutCommand::QueryRegistered;
    assert_eq!(next_command(query, &HostReply::Answer(true)), Some(ShortcutCommand::Unregister));
    assert_eq!(next_command(query, &HostReply::Answer(false)), Some(ShortcutCommand::Register));
    assert_eq!(next_command(query, &failure("unknown")), Some(ShortcutCommand::Register));
}

#[test]
fn next_shortcut_command_after_release_and_claim() {
    for reply in [HostReply::Done, HostReply::Answer(false), failure("not registered")] {
        assert_eq!(
            next_command(ShortcutCommand::Unregister, &reply),
            Some(ShortcutCommand::Register)
        );
        assert_eq!(next_command(ShortcutCommand::Register, &reply), None);
    }
}

#[test]
fn only_a_missing_window_is_fatal() {
    assert!(RegistrationError::WindowNotFound.is_fatal());
    assert!(!RegistrationError::RegistrationFailed("taken".to_string()).is_fatal());
}

#[test]
fn registration_error_messages() {
    assert_eq!(RegistrationError::WindowNotFound.message(), "Window not found");
    assert_eq!(
        RegistrationError::RegistrationFailed("already in use".to_string()).message(),
        "Failed to register shortcut: already in use"
    );
}

#[test]
fn binding_is_found_by_its_key_combination() {
    let host = RefCell::new(FakeHost::new());
    let mut table = BindingTable::new();
    assert_eq!(table.binding(COMBO), None);
    let done = table.register(COMBO, WINDOW, |command| host.borrow_mut().answer(command));
    assert_eq!(done.result, Ok(()));
    assert_eq!(
        table.binding(COMBO),
        Some(&ShortcutBinding {
            key_combo: COMBO.to_string(),
            window: WINDOW.to_string(),
            registered: true,
        })
    );
    assert_eq!(table.binding("Ctrl+K"), None);
}

#[test]
fn refused_claim_is_kept_as_an_inactive_binding() {
    let host = RefCell::new(FakeHost::new());
    host.borrow_mut().refusal = Some("taken".to_string());
    let mut table = BindingTable::new();
    let done = table.register(COMBO, WINDOW, |command| host.borrow_mut().answer(command));
    assert!(done.result.is_err());
    assert_eq!(
        table.binding(COMBO),
        Some(&ShortcutBinding {
            key_combo: COMBO.to_string(),
            window: WINDOW.to_string(),
            registered: false,
        })
    );
}
