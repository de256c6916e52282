use rebotarm_control_rt::csv::{
    dataset_header, join_csv, trajectory_header, dataset_columns, find_col, find_joint_col, infer_dof, split_csv, trajectory_columns,
    MissingColumn, Quantity, TrajectoryColumnError,
};

fn header(line: &str) -> Vec<String> {
    split_csv(line)
}

#[test]
fn cells_are_trimmed() {
    assert_eq!(split_csv(" time , q1,dq1 "), vec!["time", "q1", "dq1"]);
    assert_eq!(split_csv(""), vec![""]);
    assert_eq!(split_csv("a,,b,"), vec!["a", "", "b", ""]);
}

#[test]
fn named_and_joint_columns() {
    let h = header("time,q_1,q.joint_2,q2,tau1");
    assert_eq!(find_col(&h, "time"), Some(0));
    assert_eq!(find_col(&h, "q1"), None);
    assert_eq!(find_joint_col(&h, "q", 1), Some(1));
    assert_eq!(find_joint_col(&h, "q", 2), Some(2));
    assert_eq!(find_joint_col(&h, "tau", 1), Some(4));
    assert_eq!(find_joint_col(&h, "dq", 1), None);
    assert_eq!(find_joint_col(&header("q10,q1"), "q", 10), Some(0));
}

#[test]
fn dataset_columns_in_order() {
    let h = header("t,q1,q2,dq1,dq2,ddq1,ddq2,tau1,tau2");
    let c = dataset_columns(&h, 2).expect("columns");
    assert_eq!(c.q, vec![1, 2]);
    assert_eq!(c.dq, vec![3, 4]);
    assert_eq!(c.ddq, vec![5, 6]);
    assert_eq!(c.tau, vec![7, 8]);

    let h = header("q1,q2,dq1,ddq1,ddq2,tau1,tau2");
    assert_eq!(
        dataset_columns(&h, 2).err(),
        Some(MissingColumn { quantity: Quantity::Dq, joint: 2 })
    );
    let h = header("q1,dq1,ddq1");
    assert_eq!(
        dataset_columns(&h, 1).err(),
        Some(MissingColumn { quantity: Quantity::Tau, joint: 1 })
    );
    assert_eq!(
        dataset_columns(&h, 2).err(),
        Some(MissingColumn { quantity: Quantity::Q, joint: 2 })
    );
    assert!(dataset_columns(&h, 0).is_ok());
}

#[test]
fn trajectory_dof_and_columns() {
    let h = header("time,q1,q2,q3,dq1,dq2,dq3,q5");
    assert_eq!(infer_dof(&h), 3);
    let (q, dq, t) = trajectory_columns(&h).expect("columns");
    assert_eq!(q, vec![1, 2, 3]);
    assert_eq!(dq, vec![4, 5, 6]);
    assert_eq!(t, Some(0));

    let h = header("q1,dq1");
    assert_eq!(trajectory_columns(&h).expect("columns").2, None);
    assert_eq!(infer_dof(&header("time,dq1")), 0);
    assert_eq!(trajectory_columns(&header("time,dq1")).err(), Some(TrajectoryColumnError::NoJoints));
    assert_eq!(trajectory_columns(&header("q1,q2,dq1")).err(), Some(TrajectoryColumnError::MissingDq));
}

#[test]
fn written_trajectory_header_reads_back() {
    let line = trajectory_header(3);
    assert_eq!(line, "time,q1,q2,q3,dq1,dq2,dq3,tau1,tau2,tau3");
    let h = split_csv(&line);
    assert_eq!(infer_dof(&h), 3);
    let (q, dq, t) = trajectory_columns(&h).expect("columns");
    assert_eq!(q, vec![1, 2, 3]);
    assert_eq!(dq, vec![4, 5, 6]);
    assert_eq!(t, Some(0));
    assert_eq!(trajectory_header(0), "time");
}

#[test]
fn written_dataset_header_is_found() {
    let line = dataset_header(2);
    assert_eq!(line, "time,q1,q2,dq1,dq2,ddq1,ddq2,tau1,tau2");
    let c = dataset_columns(&split_csv(&line), 2).expect("columns");
    assert_eq!((c.q, c.dq, c.ddq, c.tau), (vec![1, 2], vec![3, 4], vec![5, 6], vec![7, 8]));
    assert_eq!(join_csv(&vec!["a".to_string(), "".to_string(), "b".to_string()]), "a,,b");
    assert_eq!(join_csv(&Vec::new()), "");
}
