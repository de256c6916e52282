//! Column layout of the identification CSV files: header cells, named columns
//! and the per-joint `q`/`dq`/`ddq`/`tau` columns.
use vstd::prelude::*;
use crate::cli::first_index_from;
use vstd::relations::injective_on;
use vstd::set_lib::{lemma_int_range, lemma_len_subset, lemma_map_size, set_int_range};
use crate::numeric::{decimal_text, lemma_decimal_roundtrip, usize_decimal};
use crate::text::{
    chars_concat, chars_eq, chars_of, find, is_ws, lemma_find_from_spec, occurs_at, split_char,
    split_on, string_of, texts, trim, trim_end, trim_start, trim_text,
};
use crate::numeric::digit_of;

verus! {

// ------------------------------------------------------------------
// Models
// ------------------------------------------------------------------

/// The cells of a CSV line: the pieces between commas, each trimmed.
pub open spec fn csv_cells(line: Seq<char>) -> Seq<Seq<char>> {
    split_on(line, ',').map_values(|p: Seq<char>| trim(p))
}

/// `prefix` followed by the decimal text of `k`.
pub open spec fn numbered(prefix: Seq<char>, k: nat) -> Seq<char> {
    prefix + decimal_text(k)
}

/// The names a per-joint column may have: `q3`, `q_3` or `q.joint_3`.
pub open spec fn column_names(prefix: Seq<char>, joint: nat) -> Seq<Seq<char>> {
    seq![
        prefix + decimal_text(joint),
        prefix + seq!['_'] + decimal_text(joint),
        prefix + seq!['.', 'j', 'o', 'i', 'n', 't', '_'] + decimal_text(joint),
    ]
}

/// The first header cell at or after `i` that is one of `names`.
pub open spec fn first_of_any_from(header: Seq<Seq<char>>, names: Seq<Seq<char>>, i: int) -> Option<
    nat,
>
    decreases header.len() - i,
{
    if i < 0 || i >= header.len() {
        None
    } else if names.contains(header[i]) {
        Some(i as nat)
    } else {
        first_of_any_from(header, names, i + 1)
    }
}

/// The column of joint `joint` (1-based) for `prefix`.
pub open spec fn joint_col_of(header: Seq<Seq<char>>, prefix: Seq<char>, joint: nat) -> Option<nat> {
    first_of_any_from(header, column_names(prefix, joint), 0)
}

/// The columns of joints `1..=n` for `prefix`, or the first joint that has
/// none.
pub open spec fn joint_cols_of(header: Seq<Seq<char>>, prefix: Seq<char>, n: nat) -> Result<
    Seq<nat>,
    nat,
>
    decreases n,
{
    if n == 0 {
        Ok(Seq::empty())
    } else {
        match joint_cols_of(header, prefix, (n - 1) as nat) {
            Err(j) => Err(j),
            Ok(cols) => match joint_col_of(header, prefix, n) {
                None => Err(n),
                Some(c) => Ok(cols.push(c)),
            },
        }
    }
}

/// The number of leading columns `q1`, `q2`, … that the header holds, counting
/// from `d` (and never past the number of cells).
pub open spec fn dof_from(header: Seq<Seq<char>>, d: nat) -> nat
    decreases header.len() - d,
{
    if d < header.len() && first_index_from(header, numbered(seq!['q'], d + 1), 0) is Some {
        dof_from(header, d + 1)
    } else {
        d
    }
}

/// The header has a column `q<k>`.
pub open spec fn has_q(header: Seq<Seq<char>>, k: nat) -> bool {
    first_index_from(header, numbered(seq!['q'], k), 0) is Some
}

proof fn lemma_first_index(names: Seq<Seq<char>>, value: Seq<char>, i: int)
    requires
        0 <= i,
    ensures
        first_index_from(names, value, i) matches Some(k) ==> i <= k < names.len() && names[k as int]
            == value,
    decreases names.len() - i,
{
    if i < names.len() && names[i] != value {
        lemma_first_index(names, value, i + 1);
    }
}

/// Different joints have different column names.
proof fn lemma_numbered_injective(k1: nat, k2: nat)
    requires
        numbered(seq!['q'], k1) == numbered(seq!['q'], k2),
    ensures
        k1 == k2,
{
    lemma_decimal_roundtrip(k1);
    lemma_decimal_roundtrip(k2);
    assert(numbered(seq!['q'], k1).skip(1) =~= decimal_text(k1));
    assert(numbered(seq!['q'], k2).skip(1) =~= decimal_text(k2));
}

/// A header holding `q1..qm` has at least `m` cells.
proof fn lemma_q_columns_fit(header: Seq<Seq<char>>, m: nat)
    requires
        forall|k: nat| 1 <= k <= m ==> #[trigger] has_q(header, k),
    ensures
        m <= header.len(),
{
    let pos = |k: int| first_index_from(header, numbered(seq!['q'], k as nat), 0)->0 as int;
    let ks = set_int_range(1, m + 1int);
    let cells = set_int_range(0, header.len() as int);
    lemma_int_range(1, m + 1int);
    lemma_int_range(0, header.len() as int);
    assert forall|k: int| ks.contains(k) implies 0 <= #[trigger] pos(k) < header.len()
        && header[pos(k)] == numbered(seq!['q'], k as nat) by {
        assert(has_q(header, k as nat));
        lemma_first_index(header, numbered(seq!['q'], k as nat), 0);
    }
    assert(injective_on(pos, ks)) by {
        assert forall|k1: int, k2: int|
            ks.contains(k1) && ks.contains(k2) && #[trigger] pos(k1) == #[trigger] pos(k2) implies k1
            == k2 by {
            lemma_numbered_injective(k1 as nat, k2 as nat);
        }
    }
    let img = ks.map(pos);
    lemma_map_size(ks, img, pos);
    assert(img.subset_of(cells));
    lemma_len_subset(img, cells);
}

proof fn lemma_dof_from(header: Seq<Seq<char>>, d: nat)
    requires
        forall|k: nat| 1 <= k <= d ==> #[trigger] has_q(header, k),
        d <= header.len(),
    ensures
        d <= dof_from(header, d) <= header.len(),
        forall|k: nat| 1 <= k <= dof_from(header, d) ==> #[trigger] has_q(header, k),
        dof_from(header, d) == header.len() || !has_q(header, dof_from(header, d) + 1),
    decreases header.len() - d,
{
    if d < header.len() && has_q(header, d + 1) {
        assert forall|k: nat| 1 <= k <= d + 1 implies #[trigger] has_q(header, k) by {
            if k <= d {
                assert(has_q(header, k));
            }
        }
        lemma_dof_from(header, d + 1);
    }
}

/// The joint count of a trajectory header is the number of its leading
/// columns `q1`, `q2`, …: all of them are there, and the next one is not.
pub proof fn lemma_dof_counts_columns(header: Seq<Seq<char>>)
    ensures
        forall|k: nat| 1 <= k <= dof_from(header, 0) ==> #[trigger] has_q(header, k),
        !has_q(header, dof_from(header, 0) + 1),
{
    lemma_dof_from(header, 0);
    let d = dof_from(header, 0);
    if has_q(header, d + 1) {
        assert forall|k: nat| 1 <= k <= d + 1 implies #[trigger] has_q(header, k) by {
            if k <= d {
                assert(has_q(header, k));
            }
        }
        lemma_q_columns_fit(header, d + 1);
    }
}

/// Cells joined by commas.
pub open spec fn join_cells(cells: Seq<Seq<char>>) -> Seq<char>
    decreases cells.len(),
{
    if cells.len() == 0 {
        Seq::empty()
    } else if cells.len() == 1 {
        cells[0]
    } else {
        cells[0] + seq![','] + join_cells(cells.drop_first())
    }
}

/// The `n` columns `prefix1..prefixn`.
pub open spec fn numbered_cols(prefix: Seq<char>, n: nat) -> Seq<Seq<char>> {
    Seq::new(n, |i: int| numbered(prefix, (i + 1) as nat))
}

/// The header of a recorded trajectory of `dof` joints: `time`, then
/// `q1..`, `dq1..` and `tau1..`.
pub open spec fn trajectory_header_cells(dof: nat) -> Seq<Seq<char>> {
    seq![seq!['t', 'i', 'm', 'e']] + numbered_cols(seq!['q'], dof) + numbered_cols(
        seq!['d', 'q'],
        dof,
    ) + numbered_cols(seq!['t', 'a', 'u'], dof)
}

/// The header of an identification dataset of `dof` joints: `time`, then
/// `q1..`, `dq1..`, `ddq1..` and `tau1..`.
pub open spec fn dataset_header_cells(dof: nat) -> Seq<Seq<char>> {
    seq![seq!['t', 'i', 'm', 'e']] + numbered_cols(seq!['q'], dof) + numbered_cols(
        seq!['d', 'q'],
        dof,
    ) + numbered_cols(seq!['d', 'd', 'q'], dof) + numbered_cols(seq!['t', 'a', 'u'], dof)
}

/// The columns `q1..qn` and `dq1..dqn`, looked up joint by joint (`q` then
/// `dq`); the first one missing is reported.
pub open spec fn trajectory_cols_of(header: Seq<Seq<char>>, n: nat) -> Result<
    (Seq<nat>, Seq<nat>),
    TrajectoryColumnError,
>
    decreases n,
{
    if n == 0 {
        Ok((Seq::empty(), Seq::empty()))
    } else {
        match trajectory_cols_of(header, (n - 1) as nat) {
            Err(e) => Err(e),
            Ok((qs, dqs)) => match first_index_from(header, numbered(seq!['q'], n), 0) {
                None => Err(TrajectoryColumnError::MissingQ),
                Some(q) => match first_index_from(header, numbered(seq!['d', 'q'], n), 0) {
                    None => Err(TrajectoryColumnError::MissingDq),
                    Some(dq) => Ok((qs.push(q), dqs.push(dq))),
                },
            },
        }
    }
}

/// Why a trajectory file's columns are unusable.
#[derive(Debug, Clone, Copy, PartialEq, Eq, Structural)]
pub enum TrajectoryColumnError {
    /// No `q1` column: the number of joints cannot be told.
    NoJoints,
    /// A `q<i>` column is missing.
    MissingQ,
    /// A `dq<i>` column is missing.
    MissingDq,
}

/// Which per-joint quantity a column holds.
#[derive(Debug, Clone, Copy, PartialEq, Eq, Structural)]
pub enum Quantity {
    Q,
    Dq,
    Ddq,
    Tau,
}

/// A per-joint column that the header lacks.
#[derive(Debug, Clone, Copy, PartialEq, Eq, Structural)]
pub struct MissingColumn {
    pub quantity: Quantity,
    /// 1-based joint number.
    pub joint: usize,
}

/// The column-name prefix of a quantity.
pub open spec fn quantity_prefix(q: Quantity) -> Seq<char> {
    match q {
        Quantity::Q => seq!['q'],
        Quantity::Dq => seq!['d', 'q'],
        Quantity::Ddq => seq!['d', 'd', 'q'],
        Quantity::Tau => seq!['t', 'a', 'u'],
    }
}

/// The columns of one quantity of a dataset file.
pub struct DatasetColumns {
    pub q: Vec<usize>,
    pub dq: Vec<usize>,
    pub ddq: Vec<usize>,
    pub tau: Vec<usize>,
}

/// A vector of indices as naturals.
pub open spec fn nats(v: Seq<usize>) -> Seq<nat> {
    v.map_values(|i: usize| i as nat)
}

// ------------------------------------------------------------------
// Executable functions
// ------------------------------------------------------------------

/// The cells of a CSV line, trimmed.
pub fn split_csv(line: &str) -> (r: Vec<String>)
    ensures
        texts(r@) == csv_cells(line@),
{
    let pieces = split_char(line, ',');
    let ghost ps = texts(pieces@);
    let mut out: Vec<String> = Vec::new();
    let mut i: usize = 0;
    while i < pieces.len()
        invariant
            i <= pieces@.len(),
            ps == texts(pieces@),
            texts(out@) == ps.take(i as int).map_values(|p: Seq<char>| trim(p)),
        decreases pieces@.len() - i,
    {
        let ghost old_out = texts(out@);
        out.push(trim_text(pieces[i].as_str()));
        assert(texts(out@) =~= old_out.push(trim(ps[i as int])));
        assert(ps.take(i + 1).map_values(|p: Seq<char>| trim(p)) =~= ps.take(i as int).map_values(
            |p: Seq<char>| trim(p),
        ).push(trim(ps[i as int])));
        i = i + 1;
    }
    assert(ps.take(pieces@.len() as int) =~= ps);
    out
}

fn find_col_chars(header: &[String], name: &Vec<char>) -> (r: Option<usize>)
    ensures
        opt_index(r) == first_index_from(texts(header@), name@, 0),
{
    let ghost h = texts(header@);
    let mut i: usize = 0;
    while i < header.len()
        invariant
            i <= header@.len(),
            h == texts(header@),
            first_index_from(h, name@, 0) == first_index_from(h, name@, i as int),
        decreases header@.len() - i,
    {
        assert(h[i as int] == header@[i as int]@);
        let cell = chars_of(header[i].as_str());
        if chars_eq(&cell, name) {
            return Some(i);
        }
        i = i + 1;
    }
    None
}

/// An optional index as a natural number.
pub open spec fn opt_index(o: Option<usize>) -> Option<nat> {
    match o {
        Some(i) => Some(i as nat),
        None => None,
    }
}

/// The first header cell equal to `name`.
pub fn find_col(header: &[String], name: &str) -> (r: Option<usize>)
    ensures
        opt_index(r) == first_index_from(texts(header@), name@, 0),
{
    let n = chars_of(name);
    find_col_chars(header, &n)
}

fn numbered_exec(prefix: &Vec<char>, k: usize) -> (r: Vec<char>)
    ensures
        r@ == numbered(prefix@, k as nat),
{
    chars_concat(prefix, &usize_decimal(k))
}

/// The column of joint `joint` (1-based) for `prefix`, named `q3`, `q_3` or
/// `q.joint_3` for prefix `q` and joint 3.
pub fn find_joint_col(header: &[String], prefix: &str, joint: usize) -> (r: Option<usize>)
    ensures
        opt_index(r) == joint_col_of(texts(header@), prefix@, joint as nat),
{
    let p = chars_of(prefix);
    let d = usize_decimal(joint);
    let n0 = chars_concat(&p, &d);
    let n1 = chars_concat(&chars_concat(&p, &vec!['_']), &d);
    let n2 = chars_concat(&chars_concat(&p, &vec!['.', 'j', 'o', 'i', 'n', 't', '_']), &d);
    let ghost names = column_names(prefix@, joint as nat);
    assert(n0@ =~= names[0]);
    assert(n1@ =~= names[1]);
    assert(n2@ =~= names[2]);
    let ghost h = texts(header@);
    let mut i: usize = 0;
    while i < header.len()
        invariant
            i <= header@.len(),
            h == texts(header@),
            names == column_names(prefix@, joint as nat),
            n0@ == names[0],
            n1@ == names[1],
            n2@ == names[2],
            first_of_any_from(h, names, 0) == first_of_any_from(h, names, i as int),
        decreases header@.len() - i,
    {
        assert(h[i as int] == header@[i as int]@);
        let cell = chars_of(header[i].as_str());
        let hit = chars_eq(&cell, &n0) || chars_eq(&cell, &n1) || chars_eq(&cell, &n2);
        proof {
            if names.contains(cell@) {
                let k = choose|k: int| 0 <= k < names.len() && names[k] == cell@;
                assert(k == 0 || k == 1 || k == 2);
            }
            if hit {
                assert(names.contains(cell@)) by {
                    if cell@ == n0@ {
                        assert(names[0] == cell@);
                    } else if cell@ == n1@ {
                        assert(names[1] == cell@);
                    } else {
                        assert(names[2] == cell@);
                    }
                }
            }
        }
        if hit {
            return Some(i);
        }
        i = i + 1;
    }
    None
}

fn joint_cols(header: &[String], prefix: &str, n: usize) -> (r: Result<Vec<usize>, usize>)
    ensures
        match r {
            Ok(v) => joint_cols_of(texts(header@), prefix@, n as nat) == Ok::<Seq<nat>, nat>(
                nats(v@),
            ),
            Err(j) => joint_cols_of(texts(header@), prefix@, n as nat) == Err::<Seq<nat>, nat>(
                j as nat,
            ),
        },
{
    let mut cols: Vec<usize> = Vec::new();
    let mut k: usize = 0;
    assert(nats(cols@) =~= Seq::<nat>::empty());
    while k < n
        invariant
            k <= n,
            joint_cols_of(texts(header@), prefix@, k as nat) == Ok::<Seq<nat>, nat>(nats(cols@)),
        decreases n - k,
    {
        match find_joint_col(header, prefix, k + 1) {
            None => {
                proof {
                    lemma_joint_cols_err(texts(header@), prefix@, (k + 1) as nat, n as nat);
                }
                return Err(k + 1);
            },
            Some(c) => {
                let ghost old_cols = nats(cols@);
                cols.push(c);
                assert(nats(cols@) =~= old_cols.push(c as nat));
            },
        }
        k = k + 1;
    }
    Ok(cols)
}

proof fn lemma_joint_cols_err(header: Seq<Seq<char>>, prefix: Seq<char>, j: nat, n: nat)
    requires
        1 <= j <= n,
        joint_cols_of(header, prefix, (j - 1) as nat) is Ok,
        joint_col_of(header, prefix, j) is None,
    ensures
        joint_cols_of(header, prefix, n) == Err::<Seq<nat>, nat>(j),
    decreases n,
{
    if n > j {
        lemma_joint_cols_err(header, prefix, j, (n - 1) as nat);
    }
}

/// The `q`, `dq`, `ddq` and `tau` columns of joints `1..=dof`, each named as
/// [`find_joint_col`] accepts; all `q` columns are looked up first, then all
/// `dq`, `ddq` and `tau` ones, and the first missing one is reported.
pub fn dataset_columns(header: &[String], dof: usize) -> (r: Result<DatasetColumns, MissingColumn>)
    ensures
        ({
            let h = texts(header@);
            match r {
                Ok(c) => joint_cols_of(h, seq!['q'], dof as nat) == Ok::<Seq<nat>, nat>(nats(c.q@))
                    && joint_cols_of(h, seq!['d', 'q'], dof as nat) == Ok::<Seq<nat>, nat>(
                    nats(c.dq@),
                ) && joint_cols_of(h, seq!['d', 'd', 'q'], dof as nat) == Ok::<Seq<nat>, nat>(
                    nats(c.ddq@),
                ) && joint_cols_of(h, seq!['t', 'a', 'u'], dof as nat) == Ok::<Seq<nat>, nat>(
                    nats(c.tau@),
                ),
                Err(m) => {
                    let missing = |q: Quantity|
                        joint_cols_of(h, quantity_prefix(q), dof as nat) == Err::<Seq<nat>, nat>(
                            m.joint as nat,
                        );
                    let found = |q: Quantity| joint_cols_of(h, quantity_prefix(q), dof as nat) is Ok;
                    match m.quantity {
                        Quantity::Q => missing(Quantity::Q),
                        Quantity::Dq => found(Quantity::Q) && missing(Quantity::Dq),
                        Quantity::Ddq => found(Quantity::Q) && found(Quantity::Dq) && missing(
                            Quantity::Ddq,
                        ),
                        Quantity::Tau => found(Quantity::Q) && found(Quantity::Dq) && found(
                            Quantity::Ddq,
                        ) && missing(Quantity::Tau),
                    }
                },
            }
        }),
{
    proof {
        reveal_strlit("q");
        reveal_strlit("dq");
        reveal_strlit("ddq");
        reveal_strlit("tau");
        assert("q"@ =~= seq!['q']);
        assert("dq"@ =~= seq!['d', 'q']);
        assert("ddq"@ =~= seq!['d', 'd', 'q']);
        assert("tau"@ =~= seq!['t', 'a', 'u']);
    }
    let q = match joint_cols(header, "q", dof) {
        Err(j) => return Err(MissingColumn { quantity: Quantity::Q, joint: j }),
        Ok(v) => v,
    };
    let dq = match joint_cols(header, "dq", dof) {
        Err(j) => return Err(MissingColumn { quantity: Quantity::Dq, joint: j }),
        Ok(v) => v,
    };
    let ddq = match joint_cols(header, "ddq", dof) {
        Err(j) => return Err(MissingColumn { quantity: Quantity::Ddq, joint: j }),
        Ok(v) => v,
    };
    let tau = match joint_cols(header, "tau", dof) {
        Err(j) => return Err(MissingColumn { quantity: Quantity::Tau, joint: j }),
        Ok(v) => v,
    };
    Ok(DatasetColumns { q, dq, ddq, tau })
}

/// The number of leading columns `q1`, `q2`, … of a trajectory header.
pub fn infer_dof(header: &[String]) -> (r: usize)
    ensures
        r as nat == dof_from(texts(header@), 0),
        forall|k: nat| 1 <= k <= r ==> #[trigger] has_q(texts(header@), k),
        !has_q(texts(header@), r as nat + 1),
{
    proof {
        lemma_dof_counts_columns(texts(header@));
    }
    let q = vec!['q'];
    assert(q@ =~= seq!['q']);
    let mut dof: usize = 0;
    while dof < header.len() && find_col_chars(header, &numbered_exec(&q, dof + 1)).is_some()
        invariant
            dof <= header@.len(),
            q@ == seq!['q'],
            dof_from(texts(header@), 0) == dof_from(texts(header@), dof as nat),
        decreases header@.len() - dof,
    {
        dof = dof + 1;
    }
    dof
}

/// The `q` and `dq` columns of joints `1..=dof` of a trajectory header (the
/// joint count is the number of leading `q` columns, which must be at least
/// one), and the `time` column if there is one.
pub fn trajectory_columns(header: &[String]) -> (r: Result<
    (Vec<usize>, Vec<usize>, Option<usize>),
    TrajectoryColumnError,
>)
    ensures
        ({
            let h = texts(header@);
            let dof = dof_from(h, 0);
            match r {
                Ok((qs, dqs, t)) => dof > 0 && trajectory_cols_of(h, dof) == Ok::<
                    (Seq<nat>, Seq<nat>),
                    TrajectoryColumnError,
                >((nats(qs@), nats(dqs@))) && opt_index(t) == first_index_from(h, "time"@, 0),
                Err(e) => if dof == 0 {
                    e == TrajectoryColumnError::NoJoints
                } else {
                    trajectory_cols_of(h, dof) == Err::<(Seq<nat>, Seq<nat>), TrajectoryColumnError>(
                        e,
                    )
                },
            }
        }),
{
    let dof = infer_dof(header);
    if dof == 0 {
        return Err(TrajectoryColumnError::NoJoints);
    }
    let q = vec!['q'];
    let dqp = vec!['d', 'q'];
    assert(q@ =~= seq!['q']);
    assert(dqp@ =~= seq!['d', 'q']);
    let mut qs: Vec<usize> = Vec::new();
    let mut dqs: Vec<usize> = Vec::new();
    let mut k: usize = 0;
    assert(nats(qs@) =~= Seq::<nat>::empty());
    while k < dof
        invariant
            k <= dof,
            dof as nat == dof_from(texts(header@), 0),
            q@ == seq!['q'],
            dqp@ == seq!['d', 'q'],
            trajectory_cols_of(texts(header@), k as nat) == Ok::<
                (Seq<nat>, Seq<nat>),
                TrajectoryColumnError,
            >((nats(qs@), nats(dqs@))),
        decreases dof - k,
    {
        let qc = match find_col_chars(header, &numbered_exec(&q, k + 1)) {
            None => {
                proof {
                    lemma_traj_err(texts(header@), (k + 1) as nat, dof as nat, TrajectoryColumnError::MissingQ);
                }
                return Err(TrajectoryColumnError::MissingQ);
            },
            Some(c) => c,
        };
        let dc = match find_col_chars(header, &numbered_exec(&dqp, k + 1)) {
            None => {
                proof {
                    lemma_traj_err(texts(header@), (k + 1) as nat, dof as nat, TrajectoryColumnError::MissingDq);
                }
                return Err(TrajectoryColumnError::MissingDq);
            },
            Some(c) => c,
        };
        let ghost oq = nats(qs@);
        let ghost odq = nats(dqs@);
        qs.push(qc);
        dqs.push(dc);
        assert(nats(qs@) =~= oq.push(qc as nat));
        assert(nats(dqs@) =~= odq.push(dc as nat));
        k = k + 1;
    }
    let t = find_col(header, "time");
    Ok((qs, dqs, t))
}

proof fn lemma_traj_err(header: Seq<Seq<char>>, j: nat, n: nat, e: TrajectoryColumnError)
    requires
        1 <= j <= n,
        trajectory_cols_of(header, j) == Err::<(Seq<nat>, Seq<nat>), TrajectoryColumnError>(e),
    ensures
        trajectory_cols_of(header, n) == Err::<(Seq<nat>, Seq<nat>), TrajectoryColumnError>(e),
    decreases n,
{
    if n > j {
        lemma_traj_err(header, j, (n - 1) as nat, e);
    }
}



// ------------------------------------------------------------------
// A written header reads back
// ------------------------------------------------------------------

/// A cell with neither white space nor commas.
pub open spec fn plain_cell(c: Seq<char>) -> bool {
    forall|i: int| 0 <= i < c.len() ==> !is_ws(#[trigger] c[i]) && c[i] != ','
}

/// A column-name prefix of lower-case ASCII letters.
pub open spec fn letters(p: Seq<char>) -> bool {
    p.len() > 0 && forall|i: int| 0 <= i < p.len() ==> 'a' <= #[trigger] p[i] && p[i] <= 'z'
}

proof fn lemma_plain_trim(c: Seq<char>)
    requires
        plain_cell(c),
    ensures
        trim(c) == c,
{
    if c.len() > 0 {
        assert(!is_ws(c[0]));
        assert(!is_ws(c[c.len() - 1]));
    }
    assert(trim_start(c) == c);
    assert(trim_end(c) == c);
}

proof fn lemma_no_comma_none(s: Seq<char>)
    requires
        plain_cell(s),
    ensures
        find(s, seq![',']) is None,
{
    lemma_find_from_spec(s, seq![','], 0);
    if let Some(i) = find(s, seq![',']) {
        assert(s.subrange(i as int, i + 1int)[0] == s[i as int]);
    }
}

proof fn lemma_split_join(cells: Seq<Seq<char>>)
    requires
        cells.len() >= 1,
        forall|i: int| 0 <= i < cells.len() ==> plain_cell(#[trigger] cells[i]),
    ensures
        split_on(join_cells(cells), ',') == cells,
    decreases cells.len(),
{
    let s = join_cells(cells);
    let c0 = cells[0];
    assert(plain_cell(c0));
    if cells.len() == 1 {
        lemma_no_comma_none(s);
        assert(split_on(s, ',') =~= cells);
    } else {
        let rest = cells.drop_first();
        assert forall|i: int| 0 <= i < rest.len() implies plain_cell(#[trigger] rest[i]) by {
            assert(rest[i] == cells[i + 1]);
        }
        let n = c0.len();
        assert(s == c0 + seq![','] + join_cells(rest));
        assert(s[n as int] == ',');
        assert(s.subrange(n as int, n + 1int) =~= seq![',']);
        assert(occurs_at(s, seq![','], n as int));
        lemma_find_from_spec(s, seq![','], 0);
        match find(s, seq![',']) {
            Some(i) => {
                if i < n {
                    assert(s.subrange(i as int, i + 1int)[0] == s[i as int]);
                    assert(s[i as int] == c0[i as int]);
                }
                assert(i == n);
            },
            None => {
                assert(occurs_at(s, seq![','], n as int));
            },
        }
        assert(s.take(n as int) =~= c0);
        assert(s.skip(n + 1int) =~= join_cells(rest));
        lemma_split_join(rest);
        assert(split_on(s, ',') =~= cells);
    }
}

proof fn lemma_numbered_plain(p: Seq<char>, k: nat)
    requires
        letters(p),
    ensures
        plain_cell(numbered(p, k)),
        numbered(p, k)[0] == p[0],
        numbered(p, k).len() > p.len(),
{
    lemma_decimal_roundtrip(k);
    let d = decimal_text(k);
    let c = numbered(p, k);
    assert forall|i: int| 0 <= i < c.len() implies !is_ws(#[trigger] c[i]) && c[i] != ',' by {
        if i < p.len() {
            assert(c[i] == p[i]);
            assert('a' <= p[i] && p[i] <= 'z');
        } else {
            assert(c[i] == d[i - p.len()]);
            assert(digit_of(d[i - p.len()], 10) is Some);
        }
    }
}

proof fn lemma_numbered_injective_on(p: Seq<char>, k1: nat, k2: nat)
    requires
        numbered(p, k1) == numbered(p, k2),
    ensures
        k1 == k2,
{
    lemma_decimal_roundtrip(k1);
    lemma_decimal_roundtrip(k2);
    assert(numbered(p, k1).skip(p.len() as int) =~= decimal_text(k1));
    assert(numbered(p, k2).skip(p.len() as int) =~= decimal_text(k2));
}

proof fn lemma_first_index_at(h: Seq<Seq<char>>, v: Seq<char>, k: int, i: int)
    requires
        0 <= i <= k < h.len(),
        h[k] == v,
        forall|j: int| i <= j < k ==> h[j] != v,
    ensures
        first_index_from(h, v, i) == Some(k as nat),
    decreases k - i,
{
    if i < k {
        lemma_first_index_at(h, v, k, i + 1);
    }
}

proof fn lemma_first_index_absent(h: Seq<Seq<char>>, v: Seq<char>, i: int)
    requires
        0 <= i,
        forall|j: int| i <= j < h.len() ==> h[j] != v,
    ensures
        first_index_from(h, v, i) is None,
    decreases h.len() - i,
{
    if i < h.len() {
        lemma_first_index_absent(h, v, i + 1);
    }
}

/// Where each cell of a trajectory header sits.
proof fn lemma_header_layout(dof: nat)
    ensures
        ({
            let h = trajectory_header_cells(dof);
            &&& h.len() == 3 * dof + 1
            &&& h[0] == seq!['t', 'i', 'm', 'e']
            &&& forall|k: int| 1 <= k <= dof ==> #[trigger] h[k] == numbered(seq!['q'], k as nat)
            &&& forall|k: int| 1 <= k <= dof ==> #[trigger] h[dof + k] == numbered(
                seq!['d', 'q'],
                k as nat,
            )
            &&& forall|k: int| 1 <= k <= dof ==> #[trigger] h[2 * dof + k] == numbered(
                seq!['t', 'a', 'u'],
                k as nat,
            )
        }),
{
    let h = trajectory_header_cells(dof);
    let a = seq![seq!['t', 'i', 'm', 'e']];
    let q = numbered_cols(seq!['q'], dof);
    let dq = numbered_cols(seq!['d', 'q'], dof);
    let tau = numbered_cols(seq!['t', 'a', 'u'], dof);
    assert(h == a + q + dq + tau);
    assert forall|k: int| 1 <= k <= dof implies #[trigger] h[k] == numbered(seq!['q'], k as nat) by {
        assert(h[k] == (a + q + dq)[k]);
        assert((a + q + dq)[k] == (a + q)[k]);
        assert((a + q)[k] == q[k - 1]);
    }
    assert forall|k: int| 1 <= k <= dof implies #[trigger] h[dof + k] == numbered(
        seq!['d', 'q'],
        k as nat,
    ) by {
        assert(h[dof + k] == (a + q + dq)[dof + k]);
        assert((a + q + dq)[dof + k] == dq[k - 1]);
    }
    assert forall|k: int| 1 <= k <= dof implies #[trigger] h[2 * dof + k] == numbered(
        seq!['t', 'a', 'u'],
        k as nat,
    ) by {
        assert(h[2 * dof + k] == tau[k - 1]);
    }
}

proof fn lemma_header_cells_plain(dof: nat)
    ensures
        forall|i: int|
            0 <= i < trajectory_header_cells(dof).len() ==> plain_cell(
                #[trigger] trajectory_header_cells(dof)[i],
            ),
{
    let h = trajectory_header_cells(dof);
    lemma_header_layout(dof);
    assert(letters(seq!['q']));
    assert(letters(seq!['d', 'q']));
    assert(letters(seq!['t', 'a', 'u']));
    assert forall|i: int| 0 <= i < h.len() implies plain_cell(#[trigger] h[i]) by {
        if i == 0 {
            assert(plain_cell(h[0]));
        } else if i <= dof {
            lemma_numbered_plain(seq!['q'], i as nat);
        } else if i <= 2 * dof {
            assert(h[dof + (i - dof)] == h[i]);
            lemma_numbered_plain(seq!['d', 'q'], (i - dof) as nat);
        } else {
            assert(h[2 * dof + (i - 2 * dof)] == h[i]);
            lemma_numbered_plain(seq!['t', 'a', 'u'], (i - 2 * dof) as nat);
        }
    }
}

/// The first letter tells the header's column groups apart.
proof fn lemma_header_first_letters(dof: nat)
    ensures
        ({
            let h = trajectory_header_cells(dof);
            &&& h[0][0] == 't'
            &&& forall|k: int| 1 <= k <= dof ==> (#[trigger] h[k])[0] == 'q'
            &&& forall|k: int| 1 <= k <= dof ==> (#[trigger] h[dof + k])[0] == 'd'
            &&& forall|k: int| 1 <= k <= dof ==> (#[trigger] h[2 * dof + k])[0] == 't'
        }),
{
    let h = trajectory_header_cells(dof);
    lemma_header_layout(dof);
    assert(letters(seq!['q']));
    assert(letters(seq!['d', 'q']));
    assert(letters(seq!['t', 'a', 'u']));
    assert forall|k: int| 1 <= k <= dof implies (#[trigger] h[k])[0] == 'q' by {
        lemma_numbered_plain(seq!['q'], k as nat);
    }
    assert forall|k: int| 1 <= k <= dof implies (#[trigger] h[dof + k])[0] == 'd' by {
        lemma_numbered_plain(seq!['d', 'q'], k as nat);
    }
    assert forall|k: int| 1 <= k <= dof implies (#[trigger] h[2 * dof + k])[0] == 't' by {
        lemma_numbered_plain(seq!['t', 'a', 'u'], k as nat);
    }
}

proof fn lemma_header_q(dof: nat, n: nat)
    requires
        1 <= n <= dof,
    ensures
        first_index_from(trajectory_header_cells(dof), numbered(seq!['q'], n), 0) == Some(n),
        first_index_from(trajectory_header_cells(dof), numbered(seq!['d', 'q'], n), 0) == Some(
            dof + n,
        ),
{
    let h = trajectory_header_cells(dof);
    lemma_header_layout(dof);
    lemma_header_first_letters(dof);
    lemma_numbered_plain(seq!['q'], n);
    lemma_numbered_plain(seq!['d', 'q'], n);
    let vq = numbered(seq!['q'], n);
    let vd = numbered(seq!['d', 'q'], n);
    assert forall|j: int| 0 <= j < n implies h[j] != vq by {
        if j == 0 {
            assert(h[0][0] != vq[0]);
        } else {
            if h[j] == vq {
                lemma_numbered_injective_on(seq!['q'], j as nat, n);
            }
        }
    }
    lemma_first_index_at(h, vq, n as int, 0);
    assert forall|j: int| 0 <= j < dof + n implies h[j] != vd by {
        if j == 0 {
            assert(h[0][0] != vd[0]);
        } else if j <= dof {
            assert(h[j][0] != vd[0]);
        } else {
            assert(h[dof + (j - dof)] == h[j]);
            if h[j] == vd {
                lemma_numbered_injective_on(seq!['d', 'q'], (j - dof) as nat, n);
            }
        }
    }
    lemma_first_index_at(h, vd, (dof + n) as int, 0);
}

proof fn lemma_header_cols(dof: nat, n: nat)
    requires
        n <= dof,
    ensures
        trajectory_cols_of(trajectory_header_cells(dof), n) == Ok::<
            (Seq<nat>, Seq<nat>),
            TrajectoryColumnError,
        >((Seq::new(n, |i: int| (i + 1) as nat), Seq::new(n, |i: int| (dof + i + 1) as nat))),
    decreases n,
{
    if n == 0 {
        assert(Seq::new(n, |i: int| (i + 1) as nat) =~= Seq::<nat>::empty());
        assert(Seq::new(n, |i: int| (dof + i + 1) as nat) =~= Seq::<nat>::empty());
    } else {
        lemma_header_cols(dof, (n - 1) as nat);
        lemma_header_q(dof, n);
        assert(Seq::new(n, |i: int| (i + 1) as nat) =~= Seq::new(
            (n - 1) as nat,
            |i: int| (i + 1) as nat,
        ).push(n));
        assert(Seq::new(n, |i: int| (dof + i + 1) as nat) =~= Seq::new(
            (n - 1) as nat,
            |i: int| (dof + i + 1) as nat,
        ).push(dof + n));
    }
}

/// What a recorded trajectory's header line says reads back as written:
/// its cells are the written ones, the joint count is `dof`, the `q` and
/// `dq` columns are found at their places, and time is the first column.
pub proof fn lemma_trajectory_header_read_back(dof: nat)
    ensures
        csv_cells(join_cells(trajectory_header_cells(dof))) == trajectory_header_cells(dof),
        dof_from(trajectory_header_cells(dof), 0) == dof,
        trajectory_cols_of(trajectory_header_cells(dof), dof) == Ok::<
            (Seq<nat>, Seq<nat>),
            TrajectoryColumnError,
        >((Seq::new(dof, |i: int| (i + 1) as nat), Seq::new(dof, |i: int| (dof + i + 1) as nat))),
        first_index_from(trajectory_header_cells(dof), "time"@, 0) == Some(0nat),
{
    let h = trajectory_header_cells(dof);
    lemma_header_layout(dof);
    lemma_header_cells_plain(dof);
    lemma_split_join(h);
    assert forall|i: int| 0 <= i < h.len() implies trim(#[trigger] h[i]) == h[i] by {
        lemma_plain_trim(h[i]);
    }
    assert(split_on(join_cells(h), ',').map_values(|p: Seq<char>| trim(p)) =~= h);
    lemma_header_cols(dof, dof);
    // The joint count.
    assert forall|k: nat| 1 <= k <= dof implies #[trigger] has_q(h, k) by {
        lemma_header_q(dof, k);
    }
    let next = numbered(seq!['q'], dof + 1);
    lemma_header_first_letters(dof);
    lemma_numbered_plain(seq!['q'], dof + 1);
    assert forall|j: int| 0 <= j < h.len() implies h[j] != next by {
        if j == 0 {
            assert(h[0][0] != next[0]);
        } else if j <= dof {
            if h[j] == next {
                lemma_numbered_injective_on(seq!['q'], j as nat, dof + 1);
            }
        } else if j <= 2 * dof {
            assert(h[dof + (j - dof)] == h[j]);
            assert(h[j][0] != next[0]);
        } else {
            assert(h[2 * dof + (j - 2 * dof)] == h[j]);
            assert(h[j][0] != next[0]);
        }
    }
    lemma_first_index_absent(h, next, 0);
    lemma_dof_counts_columns(h);
    let d = dof_from(h, 0);
    if d < dof {
        assert(has_q(h, d + 1));
    } else if d > dof {
        assert(has_q(h, dof + 1));
    }
    // The time column.
    reveal_strlit("time");
    assert("time"@ =~= seq!['t', 'i', 'm', 'e']);
}


/// A cell of lower-case ASCII letters and decimal digits.
pub open spec fn word_cell(c: Seq<char>) -> bool {
    forall|i: int| 0 <= i < c.len() ==> ('a' <= #[trigger] c[i] && c[i] <= 'z') || ('0' <= c[i]
        && c[i] <= '9')
}

proof fn lemma_numbered_word(p: Seq<char>, k: nat)
    requires
        letters(p),
    ensures
        word_cell(numbered(p, k)),
{
    lemma_decimal_roundtrip(k);
    let d = decimal_text(k);
    let c = numbered(p, k);
    assert forall|i: int| 0 <= i < c.len() implies ('a' <= #[trigger] c[i] && c[i] <= 'z') || (
    '0' <= c[i] && c[i] <= '9') by {
        if i < p.len() {
            assert(c[i] == p[i]);
        } else {
            assert(c[i] == d[i - p.len()]);
            assert(digit_of(d[i - p.len()], 10) is Some);
        }
    }
}

/// A word cell is one of the names of joint `k`'s column only if it is
/// `prefix<k>` itself: the other names hold `_` or `.`.
proof fn lemma_not_column_name(c: Seq<char>, p: Seq<char>, k: nat)
    requires
        word_cell(c),
        c != numbered(p, k),
    ensures
        !column_names(p, k).contains(c),
{
    let names = column_names(p, k);
    if names.contains(c) {
        let i = choose|i: int| 0 <= i < names.len() && names[i] == c;
        if i == 1 {
            assert(names[1][p.len() as int] == '_');
            assert(c[p.len() as int] == '_');
        } else if i == 2 {
            assert(names[2][p.len() as int] == '.');
            assert(c[p.len() as int] == '.');
        }
    }
}

proof fn lemma_first_any_at(h: Seq<Seq<char>>, names: Seq<Seq<char>>, k: int, i: int)
    requires
        0 <= i <= k < h.len(),
        names.contains(h[k]),
        forall|j: int| i <= j < k ==> !names.contains(#[trigger] h[j]),
    ensures
        first_of_any_from(h, names, i) == Some(k as nat),
    decreases k - i,
{
    if i < k {
        lemma_first_any_at(h, names, k, i + 1);
    }
}

/// Where each cell of a dataset header sits.
proof fn lemma_dataset_layout(dof: nat)
    ensures
        ({
            let h = dataset_header_cells(dof);
            &&& h.len() == 4 * dof + 1
            &&& h[0] == seq!['t', 'i', 'm', 'e']
            &&& forall|k: int| 1 <= k <= dof ==> #[trigger] h[k] == numbered(seq!['q'], k as nat)
            &&& forall|k: int| 1 <= k <= dof ==> #[trigger] h[dof + k] == numbered(
                seq!['d', 'q'],
                k as nat,
            )
            &&& forall|k: int| 1 <= k <= dof ==> #[trigger] h[2 * dof + k] == numbered(
                seq!['d', 'd', 'q'],
                k as nat,
            )
            &&& forall|k: int| 1 <= k <= dof ==> #[trigger] h[3 * dof + k] == numbered(
                seq!['t', 'a', 'u'],
                k as nat,
            )
        }),
{
    let h = dataset_header_cells(dof);
    let a = seq![seq!['t', 'i', 'm', 'e']];
    let q = numbered_cols(seq!['q'], dof);
    let dq = numbered_cols(seq!['d', 'q'], dof);
    let ddq = numbered_cols(seq!['d', 'd', 'q'], dof);
    let tau = numbered_cols(seq!['t', 'a', 'u'], dof);
    assert(h == a + q + dq + ddq + tau);
    assert forall|k: int| 1 <= k <= dof implies #[trigger] h[k] == numbered(seq!['q'], k as nat) by {
        assert(h[k] == (a + q + dq + ddq)[k]);
        assert((a + q + dq + ddq)[k] == (a + q + dq)[k]);
        assert((a + q + dq)[k] == (a + q)[k]);
        assert((a + q)[k] == q[k - 1]);
    }
    assert forall|k: int| 1 <= k <= dof implies #[trigger] h[dof + k] == numbered(
        seq!['d', 'q'],
        k as nat,
    ) by {
        assert(h[dof + k] == (a + q + dq + ddq)[dof + k]);
        assert((a + q + dq + ddq)[dof + k] == (a + q + dq)[dof + k]);
        assert((a + q + dq)[dof + k] == dq[k - 1]);
    }
    assert forall|k: int| 1 <= k <= dof implies #[trigger] h[2 * dof + k] == numbered(
        seq!['d', 'd', 'q'],
        k as nat,
    ) by {
        assert(h[2 * dof + k] == (a + q + dq + ddq)[2 * dof + k]);
        assert((a + q + dq + ddq)[2 * dof + k] == ddq[k - 1]);
    }
    assert forall|k: int| 1 <= k <= dof implies #[trigger] h[3 * dof + k] == numbered(
        seq!['t', 'a', 'u'],
        k as nat,
    ) by {
        assert(h[3 * dof + k] == tau[k - 1]);
    }
}

/// The prefix of the `b`-th column group of a dataset header.
pub open spec fn dataset_prefix(b: int) -> Seq<char> {
    if b == 0 {
        seq!['q']
    } else if b == 1 {
        seq!['d', 'q']
    } else if b == 2 {
        seq!['d', 'd', 'q']
    } else {
        seq!['t', 'a', 'u']
    }
}

/// Each dataset header cell after `time`: its group and joint.
proof fn lemma_dataset_cell(dof: nat, j: int) -> (r: (int, nat))
    requires
        1 <= j <= 4 * dof,
    ensures
        0 <= r.0 < 4,
        1 <= r.1 <= dof,
        j == r.0 * dof + r.1,
        dataset_header_cells(dof)[j] == numbered(dataset_prefix(r.0), r.1),
{
    lemma_dataset_layout(dof);
    let h = dataset_header_cells(dof);
    if j <= dof {
        (0, j as nat)
    } else if j <= 2 * dof {
        assert(h[dof + (j - dof)] == h[j]);
        (1, (j - dof) as nat)
    } else if j <= 3 * dof {
        assert(h[2 * dof + (j - 2 * dof)] == h[j]);
        (2, (j - 2 * dof) as nat)
    } else {
        assert(h[3 * dof + (j - 3 * dof)] == h[j]);
        (3, (j - 3 * dof) as nat)
    }
}

proof fn lemma_prefixes_differ(b1: int, k1: nat, b2: int, k2: nat)
    requires
        0 <= b1 < 4,
        0 <= b2 < 4,
        b1 != b2,
    ensures
        numbered(dataset_prefix(b1), k1) != numbered(dataset_prefix(b2), k2),
{
    let c1 = numbered(dataset_prefix(b1), k1);
    let c2 = numbered(dataset_prefix(b2), k2);
    lemma_numbered_plain(dataset_prefix(b1), k1);
    lemma_numbered_plain(dataset_prefix(b2), k2);
    assert(letters(seq!['q']));
    assert(letters(seq!['d', 'q']));
    assert(letters(seq!['d', 'd', 'q']));
    assert(letters(seq!['t', 'a', 'u']));
    if c1 == c2 {
        if (b1 == 1 && b2 == 2) || (b1 == 2 && b2 == 1) {
            lemma_decimal_roundtrip(k1);
            lemma_decimal_roundtrip(k2);
            assert(c1[1] == dataset_prefix(b1)[1]);
            assert(c2[1] == dataset_prefix(b2)[1]);
        } else {
            assert(c1[0] == c2[0]);
        }
    }
}

/// Joint `k` of group `b` of a dataset header is found at its place.
proof fn lemma_dataset_col(dof: nat, b: int, k: nat)
    requires
        0 <= b < 4,
        1 <= k <= dof,
    ensures
        joint_col_of(dataset_header_cells(dof), dataset_prefix(b), k) == Some(
            (b * dof + k) as nat,
        ),
{
    let h = dataset_header_cells(dof);
    let p = dataset_prefix(b);
    let pos = b * dof + k;
    assert(letters(p));
    lemma_dataset_layout(dof);
    assert(0 <= b * dof <= 3 * dof) by (nonlinear_arith)
        requires
            0 <= b < 4,
    ;
    let (b0, k0) = lemma_dataset_cell(dof, pos);
    if b0 != b {
        assert(b0 * dof + k0 == b * dof + k);
        if b0 < b {
            assert(b0 * dof + dof <= b * dof) by (nonlinear_arith)
                requires
                    b0 < b,
            ;
        } else {
            assert(b * dof + dof <= b0 * dof) by (nonlinear_arith)
                requires
                    b < b0,
            ;
        }
    }
    assert(k0 == k);
    assert(h[pos] == numbered(p, k));
    assert(column_names(p, k)[0] == h[pos]);
    assert forall|j: int| 0 <= j < pos implies !column_names(p, k).contains(#[trigger] h[j]) by {
        if j == 0 {
            assert(word_cell(h[0]));
            if h[0] == numbered(p, k) {
                lemma_numbered_plain(p, k);
                if b == 3 {
                    assert(h[0][1] == 'i');
                    assert(numbered(p, k)[1] == 'a');
                } else {
                    assert(h[0][0] == 't');
                }
            }
            lemma_not_column_name(h[0], p, k);
        } else {
            let (bj, kj) = lemma_dataset_cell(dof, j);
            lemma_numbered_word(dataset_prefix(bj), kj);
            assert(letters(dataset_prefix(bj)));
            if bj != b {
                lemma_prefixes_differ(bj, kj, b, k);
            } else {
                if h[j] == numbered(p, k) {
                    lemma_numbered_injective_on(p, kj, k);
                }
            }
            lemma_not_column_name(h[j], p, k);
        }
    }
    lemma_first_any_at(h, column_names(p, k), pos, 0);
}

proof fn lemma_dataset_cols(dof: nat, b: int, n: nat)
    requires
        0 <= b < 4,
        n <= dof,
    ensures
        joint_cols_of(dataset_header_cells(dof), dataset_prefix(b), n) == Ok::<Seq<nat>, nat>(
            Seq::new(n, |i: int| (b * dof + i + 1) as nat),
        ),
    decreases n,
{
    if n == 0 {
        assert(Seq::new(n, |i: int| (b * dof + i + 1) as nat) =~= Seq::<nat>::empty());
    } else {
        lemma_dataset_cols(dof, b, (n - 1) as nat);
        lemma_dataset_col(dof, b, n);
        assert(Seq::new(n, |i: int| (b * dof + i + 1) as nat) =~= Seq::new(
            (n - 1) as nat,
            |i: int| (b * dof + i + 1) as nat,
        ).push((b * dof + n) as nat));
    }
}

/// What an identification dataset's header line says reads back as
/// written: its cells are the written ones, and the `q`, `dq`, `ddq` and
/// `tau` columns of every joint are found at their places.
pub proof fn lemma_dataset_header_read_back(dof: nat)
    ensures
        csv_cells(join_cells(dataset_header_cells(dof))) == dataset_header_cells(dof),
        forall|b: int|
            0 <= b < 4 ==> joint_cols_of(dataset_header_cells(dof), #[trigger] dataset_prefix(b), dof)
                == Ok::<Seq<nat>, nat>(Seq::new(dof, |i: int| (b * dof + i + 1) as nat)),
{
    let h = dataset_header_cells(dof);
    lemma_dataset_layout(dof);
    assert forall|i: int| 0 <= i < h.len() implies plain_cell(#[trigger] h[i]) by {
        if i == 0 {
            assert(plain_cell(h[0]));
        } else {
            let (b, k) = lemma_dataset_cell(dof, i);
            assert(letters(dataset_prefix(b)));
            lemma_numbered_plain(dataset_prefix(b), k);
        }
    }
    lemma_split_join(h);
    assert forall|i: int| 0 <= i < h.len() implies trim(#[trigger] h[i]) == h[i] by {
        lemma_plain_trim(h[i]);
    }
    assert(split_on(join_cells(h), ',').map_values(|p: Seq<char>| trim(p)) =~= h);
    assert forall|b: int| 0 <= b < 4 implies joint_cols_of(h, #[trigger] dataset_prefix(b), dof)
        == Ok::<Seq<nat>, nat>(Seq::new(dof, |i: int| (b * dof + i + 1) as nat)) by {
        lemma_dataset_cols(dof, b, dof);
    }
}

proof fn lemma_join_push(cells: Seq<Seq<char>>, x: Seq<char>)
    requires
        cells.len() >= 1,
    ensures
        join_cells(cells.push(x)) == join_cells(cells) + seq![','] + x,
    decreases cells.len(),
{
    let c = cells.push(x);
    assert(c[0] == cells[0]);
    if cells.len() == 1 {
        assert(c.drop_first() =~= seq![x]);
        assert(join_cells(c.drop_first()) == x);
        assert(join_cells(cells) == cells[0]);
    } else {
        assert(c.drop_first() =~= cells.drop_first().push(x));
        lemma_join_push(cells.drop_first(), x);
        let r = join_cells(cells.drop_first());
        assert(join_cells(c) == cells[0] + seq![','] + (r + seq![','] + x));
        assert(join_cells(cells) == cells[0] + seq![','] + r);
        assert(cells[0] + seq![','] + (r + seq![','] + x) =~= cells[0] + seq![','] + r + seq![',']
            + x);
    }
}

fn push_numbered(cells: &mut Vec<String>, prefix: &str, dof: usize)
    ensures
        texts(final(cells)@) == texts(old(cells)@) + numbered_cols(prefix@, dof as nat),
{
    let p = chars_of(prefix);
    let ghost start = texts(cells@);
    let mut i: usize = 0;
    while i < dof
        invariant
            i <= dof,
            p@ == prefix@,
            texts(cells@) == start + numbered_cols(prefix@, i as nat),
        decreases dof - i,
    {
        let ghost before = texts(cells@);
        let cell = string_of(&chars_concat(&p, &usize_decimal(i + 1)));
        cells.push(cell);
        assert(texts(cells@) =~= before.push(numbered(prefix@, (i + 1) as nat)));
        assert(start + numbered_cols(prefix@, (i + 1) as nat) =~= (start + numbered_cols(
            prefix@,
            i as nat,
        )).push(numbered(prefix@, (i + 1) as nat)));
        i = i + 1;
    }
}

fn time_cell() -> (r: Vec<String>)
    ensures
        texts(r@) == seq![seq!['t', 'i', 'm', 'e']],
{
    let mut cells: Vec<String> = Vec::new();
    cells.push("time".to_owned());
    proof {
        reveal_strlit("time");
        assert("time"@ =~= seq!['t', 'i', 'm', 'e']);
        assert(texts(cells@)[0] == cells@[0]@);
        assert(texts(cells@) =~= seq![seq!['t', 'i', 'm', 'e']]);
    }
    cells
}

/// The header line of a recorded trajectory of `dof` joints.
pub fn trajectory_header(dof: usize) -> (r: String)
    ensures
        r@ == join_cells(trajectory_header_cells(dof as nat)),
{
    let mut cells = time_cell();
    push_numbered(&mut cells, "q", dof);
    push_numbered(&mut cells, "dq", dof);
    push_numbered(&mut cells, "tau", dof);
    proof {
        reveal_strlit("q");
        reveal_strlit("dq");
        reveal_strlit("tau");
        assert("q"@ =~= seq!['q']);
        assert("dq"@ =~= seq!['d', 'q']);
        assert("tau"@ =~= seq!['t', 'a', 'u']);
        assert(texts(cells@) =~= trajectory_header_cells(dof as nat));
    }
    join_csv(&cells)
}

/// The header line of an identification dataset of `dof` joints.
pub fn dataset_header(dof: usize) -> (r: String)
    ensures
        r@ == join_cells(dataset_header_cells(dof as nat)),
{
    let mut cells = time_cell();
    push_numbered(&mut cells, "q", dof);
    push_numbered(&mut cells, "dq", dof);
    push_numbered(&mut cells, "ddq", dof);
    push_numbered(&mut cells, "tau", dof);
    proof {
        reveal_strlit("q");
        reveal_strlit("dq");
        reveal_strlit("ddq");
        reveal_strlit("tau");
        assert("q"@ =~= seq!['q']);
        assert("dq"@ =~= seq!['d', 'q']);
        assert("ddq"@ =~= seq!['d', 'd', 'q']);
        assert("tau"@ =~= seq!['t', 'a', 'u']);
        assert(texts(cells@) =~= dataset_header_cells(dof as nat));
    }
    join_csv(&cells)
}

/// The cells joined by commas.
pub fn join_csv(cells: &Vec<String>) -> (r: String)
    ensures
        r@ == join_cells(texts(cells@)),
{
    if cells.len() == 0 {
        return String::new();
    }
    let ghost cs = texts(cells@);
    let mut out = cells[0].as_str().to_owned();
    let mut k: usize = 1;
    assert(cs.take(1) =~= seq![cs[0]]);
    while k < cells.len()
        invariant
            1 <= k <= cells@.len(),
            cs == texts(cells@),
            out@ == join_cells(cs.take(k as int)),
        decreases cells@.len() - k,
    {
        proof {
            lemma_join_push(cs.take(k as int), cs[k as int]);
            assert(cs.take(k + 1) =~= cs.take(k as int).push(cs[k as int]));
        }
        let mut next = out.clone();
        next.append(",");
        next.append(cells[k].as_str());
        proof {
            reveal_strlit(",");
        }
        assert(next@ =~= out@ + seq![','] + cs[k as int]);
        out = next;
        k = k + 1;
    }
    assert(cs.take(cells@.len() as int) =~= cs);
    out
}

} // verus!
