use subtake::replace::{Action, Event, Replacement};

/// Runs a replacement, answering each step from `answer`, and returns the
/// actions taken.
fn run(sources: Vec<bool>, answer: impl Fn(Action) -> Event) -> (Vec<Action>, Replacement) {
    let mut r = Replacement::new(sources);
    let mut actions = vec![];
    loop {
        let action = r.action();
        actions.push(action);
        if matches!(action, Action::Finish | Action::Report) {
            return (actions, r);
        }
        r.step(answer(action));
    }
}

#[test]
fn a_replacement_moves_aside_then_installs() {
    let (actions, r) = run(vec![true, false, true], |a| match a {
        Action::MoveAside(1) => Event::Absent,
        _ => Event::Done,
    });
    assert_eq!(
        actions,
        vec![
            Action::MoveAside(0),
            Action::MoveAside(1),
            Action::MoveAside(2),
            Action::Install(0),
            Action::Install(2),
            Action::Finish,
        ]
    );
    assert_eq!(*r.moved(), vec![0, 2]);
    assert_eq!(*r.installed(), vec![0, 2]);
    let (actions, _) = run(vec![], |_| Event::Done);
    assert_eq!(actions, vec![Action::Finish]);
}

#[test]
fn a_failed_install_undoes_what_was_done() {
    let (actions, r) = run(vec![true, true, true], |a| match a {
        Action::MoveAside(1) => Event::Absent,
        Action::Install(2) => Event::Failed,
        _ => Event::Done,
    });
    assert_eq!(
        actions,
        vec![
            Action::MoveAside(0),
            Action::MoveAside(1),
            Action::MoveAside(2),
            Action::Install(0),
            Action::Install(1),
            Action::Install(2),
            Action::Remove(0),
            Action::Remove(1),
            Action::Restore(0),
            Action::Restore(2),
            Action::Report,
        ]
    );
    assert!(r.cleanly_undone());
}

#[test]
fn a_failed_move_puts_back_only_what_moved() {
    let (actions, r) = run(vec![true, true], |a| match a {
        Action::MoveAside(1) => Event::Failed,
        Action::Restore(0) => Event::Failed,
        _ => Event::Done,
    });
    assert_eq!(
        actions,
        vec![Action::MoveAside(0), Action::MoveAside(1), Action::Restore(0), Action::Report]
    );
    assert!(!r.cleanly_undone());
    let (actions, _) = run(vec![true], |_| Event::Failed);
    assert_eq!(actions, vec![Action::MoveAside(0), Action::Report]);
}
