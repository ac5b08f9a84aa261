use quotaglass::login_item::first_run_registration;

#[test]
fn only_a_launch_without_the_marker_acts() {
    let first = first_run_registration(false, true);
    assert!(first.register && first.write_marker);
    let already_on = first_run_registration(false, false);
    assert!(!already_on.register && already_on.write_marker);
    let later = first_run_registration(true, true);
    assert!(!later.register && !later.write_marker);
    let later_on = first_run_registration(true, false);
    assert!(!later_on.register && !later_on.write_marker);
}

#[test]
fn a_user_who_turned_it_off_is_not_registered_again() {
    let mut marker = false;
    let mut registered = 0;
    for not_registered in [true, true, true] {
        let decision = first_run_registration(marker, not_registered);
        if decision.register {
            registered += 1;
        }
        marker = marker || decision.write_marker;
    }
    assert_eq!(registered, 1);
}
