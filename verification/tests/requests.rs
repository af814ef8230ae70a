use ceph_rbd::error::RbdError;
use ceph_rbd::image::copy_request;
use ceph_rbd::options::{ImageOption, OptionStep, OptionsRun};
use ceph_rbd::rbd::Rbd;

fn drive(run: &mut OptionsRun, codes: &[i32]) -> Vec<String> {
    let mut steps = Vec::new();
    let mut i = 0;
    loop {
        let step = run.next_step();
        let done = matches!(step, OptionStep::Finish(_));
        steps.push(format!("{:?}", step));
        if done {
            break;
        }
        let code = if i < codes.len() { codes[i] } else { 0 };
        i += 1;
        run.record(code);
    }
    steps
}

#[test]
fn option_numbers_follow_librbd() {
    assert_eq!(ImageOption::Format.code(), 0);
    assert_eq!(ImageOption::Features.code(), 1);
    assert_eq!(ImageOption::Order.code(), 2);
    assert_eq!(ImageOption::StripeUnit.code(), 3);
    assert_eq!(ImageOption::StripeCount.code(), 4);
    assert_eq!(ImageOption::DataPool.code(), 10);
}

#[test]
fn creation_sets_format_then_given_options_then_stripes() {
    let mut req = Rbd::creation_request("img", 1 << 30, Some(22), false, None, None, Some(4), None).unwrap();
    assert_eq!(req.name, b"img\0".to_vec());
    assert_eq!(req.size, 1 << 30);
    let steps = drive(&mut req.run, &[]);
    assert_eq!(
        steps,
        vec![
            "Apply(Format, Number(2))",
            "Apply(Order, Number(22))",
            "Apply(StripeUnit, Number(0))",
            "Apply(StripeCount, Number(4))",
            "Submit",
            "Destroy",
            "Finish(Ok(()))",
        ]
    );
}

#[test]
fn creation_with_features_sets_them_before_order() {
    let mut req = Rbd::creation_request("img", 10, Some(20), false, Some(61), Some(65536), None, None).unwrap();
    let steps = drive(&mut req.run, &[]);
    assert_eq!(
        steps,
        vec![
            "Apply(Format, Number(2))",
            "Apply(Features, Number(61))",
            "Apply(Order, Number(20))",
            "Apply(StripeUnit, Number(65536))",
            "Apply(StripeCount, Number(0))",
            "Submit",
            "Destroy",
            "Finish(Ok(()))",
        ]
    );
}

#[test]
fn failed_format_setting_is_not_checked() {
    let mut req = Rbd::creation_request("img", 10, None, false, None, None, None, None).unwrap();
    let steps = drive(&mut req.run, &[-22]);
    assert_eq!(steps.last().unwrap(), "Finish(Ok(()))");
    assert_eq!(steps.len(), 6);
}

#[test]
fn failed_checked_setting_ends_request_without_submit() {
    let mut req = Rbd::creation_request("img", 10, Some(12), false, None, None, None, None).unwrap();
    let steps = drive(&mut req.run, &[0, -22]);
    assert_eq!(
        steps,
        vec!["Apply(Format, Number(2))", "Apply(Order, Number(12))", "Finish(Err(Api(-22)))"]
    );
}

#[test]
fn failed_submit_ends_request_without_destroy() {
    let mut req = Rbd::creation_request("img", 10, None, false, None, None, None, None).unwrap();
    let steps = drive(&mut req.run, &[0, 0, 0, -17]);
    assert_eq!(steps.last().unwrap(), "Finish(Err(Api(-17)))");
    assert!(!steps.iter().any(|s| s == "Destroy"));
}

#[test]
fn answers_after_the_end_are_ignored() {
    let mut req = Rbd::creation_request("img", 10, None, false, None, None, None, None).unwrap();
    let _ = drive(&mut req.run, &[0, -5]);
    req.run.record(0);
    assert!(matches!(req.run.next_step(), OptionStep::Finish(Err(RbdError::Api(-5)))));
}

#[test]
fn creation_rejects_name_with_nul() {
    assert!(matches!(
        Rbd::creation_request("bad\0name", 1, None, false, None, None, None, None),
        Err(RbdError::InteriorNul(3, _))
    ));
}

#[test]
fn clone_sets_order_default_zero() {
    let mut req = Rbd::clone_request("parent", "snap", "child", None, None, None, None).unwrap();
    assert_eq!(req.parent_name, b"parent\0".to_vec());
    assert_eq!(req.parent_snapname, b"snap\0".to_vec());
    assert_eq!(req.name, b"child\0".to_vec());
    let steps = drive(&mut req.run, &[]);
    assert_eq!(
        steps,
        vec![
            "Apply(Order, Number(0))",
            "Apply(StripeUnit, Number(0))",
            "Apply(StripeCount, Number(0))",
            "Submit",
            "Destroy",
            "Finish(Ok(()))",
        ]
    );
}

#[test]
fn clone_checks_snapshot_name_first() {
    assert!(matches!(
        Rbd::clone_request("p\0", "sn\0ap", "c\0", None, None, None, None),
        Err(RbdError::InteriorNul(2, _))
    ));
    assert!(matches!(
        Rbd::clone_request("p\0", "snap", "c\0", None, None, None, None),
        Err(RbdError::InteriorNul(1, _))
    ));
    assert!(matches!(
        Rbd::clone_request("p", "snap", "\0c", None, None, None, None),
        Err(RbdError::InteriorNul(0, _))
    ));
}

#[test]
fn clone_failure_of_features_is_reported() {
    let mut req = Rbd::clone_request("p", "s", "c", Some(1), Some(22), None, None).unwrap();
    let steps = drive(&mut req.run, &[-38]);
    assert_eq!(steps, vec!["Apply(Features, Number(1))", "Finish(Err(Api(-38)))"]);
}

#[test]
fn copy_sets_given_features_and_options() {
    let mut req = copy_request("dest", Some(3), Some(23), Some(4096), Some(8)).unwrap();
    assert_eq!(req.dest_name, b"dest\0".to_vec());
    let steps = drive(&mut req.run, &[]);
    assert_eq!(
        steps,
        vec![
            "Apply(Features, Number(3))",
            "Apply(Order, Number(23))",
            "Apply(StripeUnit, Number(4096))",
            "Apply(StripeCount, Number(8))",
            "Submit",
            "Destroy",
            "Finish(Ok(()))",
        ]
    );
}

#[test]
fn copy_rejects_destination_with_nul() {
    assert!(matches!(copy_request("d\0", None, None, None, None), Err(RbdError::InteriorNul(1, _))));
}

#[test]
fn clone_refusal_names_the_offending_argument() {
    match Rbd::clone_request("p\0", "sn\0ap", "c", None, None, None, None) {
        Err(RbdError::InteriorNul(2, b)) => assert_eq!(b, b"sn\0ap".to_vec()),
        _ => panic!("snapshot name should be refused first"),
    }
}

#[test]
fn old_format_creation_sets_format_one_and_data_pool_last() {
    let mut req =
        Rbd::creation_request("img", 10, None, true, None, None, None, Some("fast")).unwrap();
    let steps = drive(&mut req.run, &[]);
    assert_eq!(
        steps,
        vec![
            "Apply(Format, Number(1))",
            "Apply(StripeUnit, Number(0))",
            "Apply(StripeCount, Number(0))",
            "Apply(DataPool, Text([102, 97, 115, 116, 0]))",
            "Submit",
            "Destroy",
            "Finish(Ok(()))",
        ]
    );
}

#[test]
fn failed_data_pool_setting_fails_creation() {
    let mut req = Rbd::creation_request("img", 10, None, false, None, None, None, Some("p")).unwrap();
    let steps = drive(&mut req.run, &[0, 0, 0, -2]);
    assert_eq!(steps.last().unwrap(), "Finish(Err(Api(-2)))");
    assert!(!steps.iter().any(|s| s == "Submit"));
}

#[test]
fn creation_checks_name_before_data_pool() {
    match Rbd::creation_request("a\0", 1, None, false, None, None, None, Some("p\0ool")) {
        Err(RbdError::InteriorNul(1, b)) => assert_eq!(b, b"a\0".to_vec()),
        _ => panic!("name should be refused first"),
    }
    match Rbd::creation_request("a", 1, None, false, None, None, None, Some("p\0ool")) {
        Err(RbdError::InteriorNul(1, b)) => assert_eq!(b, b"p\0ool".to_vec()),
        _ => panic!("data pool should be refused"),
    }
}
