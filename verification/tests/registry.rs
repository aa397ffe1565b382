use scoped_writer::g;
use scoped_writer::scoped;
use scoped_writer::with;
use scoped_writer::write_line;
use scoped_writer::Registry;

#[test]
fn new_registry_is_empty_and_idle() {
    let mut reg: Registry<u32> = Registry::new();
    assert!(!reg.is_busy());
    assert_eq!(reg.restore(None), None);
}

#[test]
fn with_without_a_scope_does_not_run_the_action() {
    let mut reg: Registry<Vec<u8>> = Registry::new();
    let mut ran = false;

    let res = with(&mut reg, |_w| ran = true);

    assert!(res.is_none());
    assert!(!ran);
    assert!(!reg.is_busy());
}

#[test]
fn with_returns_the_result_of_the_action() {
    let mut reg: Registry<Vec<u8>> = Registry::new();

    let (seen, buf) = scoped(&mut reg, b"abc".to_vec(), |reg| {
        with(reg, |w| {
            w.push(b'd');
            w.len()
        })
    });

    assert_eq!(seen, Some(4));
    assert_eq!(buf, b"abcd");
}

#[test]
fn scoped_returns_the_result_of_the_body() {
    let mut reg: Registry<Vec<u8>> = Registry::new();

    let (answer, buf) = scoped(&mut reg, Vec::new(), |_reg| 42);

    assert_eq!(answer, 42);
    assert!(buf.is_empty());
}

#[test]
fn formatted_lines_reach_the_sink() {
    let mut reg: Registry<Vec<u8>> = Registry::new();

    let ((), buf) = scoped(&mut reg, Vec::new(), |reg| {
        with(reg, |w| write_line(w, "Hello"));
        with(reg, |w| write_line(w, ""));
        with(reg, |w| write_line(w, &format!("The answer is {}", 42)));
    });

    assert_eq!(buf, b"Hello\n\nThe answer is 42\n");
}

#[test]
fn nested_scopes_keep_their_writes_apart() {
    let mut reg: Registry<Vec<u8>> = Registry::new();

    let (b, a) = scoped(&mut reg, Vec::new(), |reg| {
        let ((), b) = scoped(reg, Vec::new(), |reg| g(reg, &["to b"]));
        g(reg, &["to a"]);
        b
    });

    assert_eq!(a, b"to a\n");
    assert_eq!(b, b"to b\n");
}

#[test]
fn access_sees_the_innermost_open_scope() {
    let mut reg: Registry<u32> = Registry::new();
    let mut seen = Vec::new();

    seen.push(with(&mut reg, |w| *w));
    scoped(&mut reg, 1, |reg| {
        seen.push(with(reg, |w| *w));
        scoped(reg, 2, |reg| {
            seen.push(with(reg, |w| *w));
            scoped(reg, 3, |reg| {
                seen.push(with(reg, |w| *w));
            });
            seen.push(with(reg, |w| *w));
        });
        seen.push(with(reg, |w| *w));
        scoped(reg, 4, |reg| {
            seen.push(with(reg, |w| *w));
        });
        seen.push(with(reg, |w| *w));
    });
    seen.push(with(&mut reg, |w| *w));

    assert_eq!(
        seen,
        vec![None, Some(1), Some(2), Some(3), Some(2), Some(1), Some(4), Some(1), None]
    );
}

#[test]
fn scoped_puts_back_what_was_installed_before() {
    let mut reg: Registry<Vec<u8>> = Registry::new();

    let ((), outer) = scoped(&mut reg, b"outer".to_vec(), |reg| {
        let ((), inner) = scoped(reg, b"inner".to_vec(), |reg| {
            with(reg, |w| w.push(b'!'));
        });
        assert_eq!(inner, b"inner!");
        assert!(!reg.is_busy());
        assert_eq!(with(reg, |w| w.clone()), Some(b"outer".to_vec()));
    });

    assert_eq!(outer, b"outer");
    assert!(!reg.is_busy());
    assert!(with(&mut reg, |_w| ()).is_none());
}

#[test]
fn a_failing_body_keeps_its_writes_and_restores() {
    let mut reg: Registry<Vec<u8>> = Registry::new();

    let (res, a) = scoped(&mut reg, Vec::new(), |reg| {
        g(reg, &["a1"]);
        let (res, b) = scoped(reg, Vec::new(), |reg| -> Result<(), String> {
            g(reg, &["b1"]);
            if with(reg, |w| w.len()) == Some(3) {
                return Err(String::from("failed"));
            }
            g(reg, &["b2"]);
            Ok(())
        });
        assert_eq!(b, b"b1\n");
        assert_eq!(with(reg, |w| w.clone()), Some(b"a1\n".to_vec()));
        res
    });

    assert_eq!(res, Err(String::from("failed")));
    assert_eq!(a, b"a1\n");
    assert!(with(&mut reg, |_w| ()).is_none());
}

#[test]
fn install_hands_back_what_it_displaced() {
    let mut reg: Registry<u32> = Registry::new();

    assert_eq!(reg.install(10), None);
    assert_eq!(reg.install(20), Some(10));
    assert_eq!(with(&mut reg, |w| *w), Some(20));
    assert!(!reg.is_busy());
}

#[test]
fn restore_hands_out_what_the_slot_held() {
    let mut reg: Registry<u32> = Registry::new();

    let outer = reg.install(10);
    let inner = reg.install(20);
    assert_eq!(reg.restore(inner), Some(20));
    assert_eq!(with(&mut reg, |w| *w), Some(10));
    assert_eq!(reg.restore(outer), Some(10));
    assert_eq!(with(&mut reg, |w| *w), None);
}

#[test]
fn begin_access_hands_out_the_writer_and_marks_the_registry_busy() {
    let mut reg: Registry<u32> = Registry::new();
    reg.install(7);

    assert_eq!(reg.begin_access(), Some(7));
    assert!(reg.is_busy());

    reg.end_access();
    assert!(!reg.is_busy());
    assert_eq!(reg.restore(None), Some(7));
}

#[test]
fn begin_access_on_an_empty_registry_marks_it_busy_all_the_same() {
    let mut reg: Registry<u32> = Registry::new();

    assert_eq!(reg.begin_access(), None);
    assert!(reg.is_busy());

    reg.end_access();
    assert!(!reg.is_busy());
    assert_eq!(reg.begin_access(), None);
}

#[test]
fn end_access_keeps_the_writer_installed() {
    let mut reg: Registry<u32> = Registry::new();
    reg.install(3);
    reg.begin_access();
    reg.end_access();

    assert_eq!(with(&mut reg, |w| *w), Some(3));
}

#[test]
fn handles_follow_the_nesting() {
    let mut reg: Registry<u32> = Registry::new();

    let saved_by_a = reg.install(1);
    assert_eq!(reg.begin_access(), Some(1));
    reg.end_access();

    let saved_by_b = reg.install(2);
    assert_eq!(reg.begin_access(), Some(2));
    reg.end_access();

    assert_eq!(reg.restore(saved_by_b), Some(2));
    assert_eq!(reg.begin_access(), Some(1));
    reg.end_access();

    assert_eq!(reg.restore(saved_by_a), Some(1));
    assert_eq!(reg.begin_access(), None);
    reg.end_access();
    assert!(!reg.is_busy());
}

#[test]
fn installing_during_an_access_is_told_apart_by_the_busy_flag() {
    let mut reg: Registry<u32> = Registry::new();
    reg.install(1);

    assert!(!reg.is_busy());
    reg.begin_access();
    assert!(reg.is_busy());
    reg.end_access();
    assert!(!reg.is_busy());
    assert_eq!(reg.install(2), Some(1));
}
