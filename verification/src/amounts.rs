//! Transfer amounts: the expression trees clients send, how a tree is laid
//! out as rows (children before the node that names them) and how it is
//! read back from them.
use vstd::prelude::*;

use crate::error::{owned, ApiError};
use crate::rows::TransferAmountRow;
use crate::specs::{check_depth, MAX_SPEC_DEPTH};
use crate::text::same_text;

verus! {

/// An amount as a client sends it. Numbers are carried as the bit pattern of
/// their IEEE 754 double: nothing here computes with them.
pub enum AmountSpec {
    Expression { source: String },
    Fixed { value_bits: u64 },
    InflationAdjusted { inner: Box<AmountSpec> },
    SourceBalance,
    ZeroTargetBalance,
    TargetToBalance { value_bits: u64 },
    AssetBalance { account_id: i64, asset_id: i64 },
    AccountTotalBalance { account_id: i64 },
    AccountCashBalance { account_id: i64 },
    Min { left: Box<AmountSpec>, right: Box<AmountSpec> },
    Max { left: Box<AmountSpec>, right: Box<AmountSpec> },
    Sub { left: Box<AmountSpec>, right: Box<AmountSpec> },
    Add { left: Box<AmountSpec>, right: Box<AmountSpec> },
    Mul { left: Box<AmountSpec>, right: Box<AmountSpec> },
    Scale { factor_bits: u64, inner: Box<AmountSpec> },
}

/// An amount as a value.
pub enum AmountModel {
    Expression(Seq<char>),
    Fixed(u64),
    InflationAdjusted(Box<AmountModel>),
    SourceBalance,
    ZeroTargetBalance,
    TargetToBalance(u64),
    AssetBalance(i64, i64),
    AccountTotalBalance(i64),
    AccountCashBalance(i64),
    Min(Box<AmountModel>, Box<AmountModel>),
    Max(Box<AmountModel>, Box<AmountModel>),
    Sub(Box<AmountModel>, Box<AmountModel>),
    Add(Box<AmountModel>, Box<AmountModel>),
    Mul(Box<AmountModel>, Box<AmountModel>),
    Scale(u64, Box<AmountModel>),
}

pub open spec fn model_of(a: AmountSpec) -> AmountModel
    decreases a,
{
    match a {
        AmountSpec::Expression { source } => AmountModel::Expression(source@),
        AmountSpec::Fixed { value_bits } => AmountModel::Fixed(value_bits),
        AmountSpec::InflationAdjusted { inner } => AmountModel::InflationAdjusted(
            Box::new(model_of(*inner)),
        ),
        AmountSpec::SourceBalance => AmountModel::SourceBalance,
        AmountSpec::ZeroTargetBalance => AmountModel::ZeroTargetBalance,
        AmountSpec::TargetToBalance { value_bits } => AmountModel::TargetToBalance(value_bits),
        AmountSpec::AssetBalance { account_id, asset_id } => AmountModel::AssetBalance(
            account_id,
            asset_id,
        ),
        AmountSpec::AccountTotalBalance { account_id } => AmountModel::AccountTotalBalance(
            account_id,
        ),
        AmountSpec::AccountCashBalance { account_id } => AmountModel::AccountCashBalance(
            account_id,
        ),
        AmountSpec::Min { left, right } => AmountModel::Min(
            Box::new(model_of(*left)),
            Box::new(model_of(*right)),
        ),
        AmountSpec::Max { left, right } => AmountModel::Max(
            Box::new(model_of(*left)),
            Box::new(model_of(*right)),
        ),
        AmountSpec::Sub { left, right } => AmountModel::Sub(
            Box::new(model_of(*left)),
            Box::new(model_of(*right)),
        ),
        AmountSpec::Add { left, right } => AmountModel::Add(
            Box::new(model_of(*left)),
            Box::new(model_of(*right)),
        ),
        AmountSpec::Mul { left, right } => AmountModel::Mul(
            Box::new(model_of(*left)),
            Box::new(model_of(*right)),
        ),
        AmountSpec::Scale { factor_bits, inner } => AmountModel::Scale(
            factor_bits,
            Box::new(model_of(*inner)),
        ),
    }
}

impl View for AmountSpec {
    type V = AmountModel;

    open spec fn view(&self) -> AmountModel {
        model_of(*self)
    }
}

/// How many nodes a tree has.
pub open spec fn node_count(m: AmountModel) -> nat
    decreases m,
{
    match m {
        AmountModel::InflationAdjusted(i) => 1 + node_count(*i),
        AmountModel::Scale(_, i) => 1 + node_count(*i),
        AmountModel::Min(l, r) => 1 + node_count(*l) + node_count(*r),
        AmountModel::Max(l, r) => 1 + node_count(*l) + node_count(*r),
        AmountModel::Sub(l, r) => 1 + node_count(*l) + node_count(*r),
        AmountModel::Add(l, r) => 1 + node_count(*l) + node_count(*r),
        AmountModel::Mul(l, r) => 1 + node_count(*l) + node_count(*r),
        _ => 1,
    }
}

/// A stored row as plain values: id, kind, number, account, asset, left
/// child, right child, expression text.
pub type AmountRowView = (
    i64,
    Seq<char>,
    Option<u64>,
    Option<i64>,
    Option<i64>,
    Option<i64>,
    Option<i64>,
    Option<Seq<char>>,
);

pub open spec fn amount_row_view(r: TransferAmountRow) -> AmountRowView {
    (
        r.id,
        r.kind@,
        r.value_bits,
        r.account_id,
        r.asset_id,
        r.left_id,
        r.right_id,
        match r.expression_source {
            Some(s) => Some(s@),
            None => None,
        },
    )
}

pub open spec fn amount_row_views(v: Seq<TransferAmountRow>) -> Seq<AmountRowView> {
    v.map_values(|r: TransferAmountRow| amount_row_view(r))
}

/// Why a tree cannot be written.
pub enum WriteFault {
    /// It nests deeper than `MAX_SPEC_DEPTH`.
    TooDeep,
    /// An expression stands below the root.
    NestedExpression,
}

pub open spec fn is_expression(m: AmountModel) -> bool {
    m is Expression
}

/// A node whose direct operand is an expression.
pub open spec fn nests_expression(m: AmountModel) -> bool {
    match m {
        AmountModel::InflationAdjusted(i) => is_expression(*i),
        AmountModel::Scale(_, i) => is_expression(*i),
        AmountModel::Min(l, r) => is_expression(*l) || is_expression(*r),
        AmountModel::Max(l, r) => is_expression(*l) || is_expression(*r),
        AmountModel::Sub(l, r) => is_expression(*l) || is_expression(*r),
        AmountModel::Add(l, r) => is_expression(*l) || is_expression(*r),
        AmountModel::Mul(l, r) => is_expression(*l) || is_expression(*r),
        _ => false,
    }
}

pub open spec fn row(
    id: int,
    kind: Seq<char>,
    value: Option<u64>,
    account: Option<i64>,
    asset: Option<i64>,
    left: Option<i64>,
    right: Option<i64>,
) -> AmountRowView {
    (id as i64, kind, value, account, asset, left, right, None)
}

pub open spec fn binary_kind(m: AmountModel) -> Seq<char> {
    match m {
        AmountModel::Min(_, _) => "Min"@,
        AmountModel::Max(_, _) => "Max"@,
        AmountModel::Sub(_, _) => "Sub"@,
        AmountModel::Add(_, _) => "Add"@,
        _ => "Mul"@,
    }
}

/// The rows of a binary node: its left subtree, its right subtree, then the
/// node itself naming the two subtrees' roots.
pub open spec fn binary_rows(
    kind: Seq<char>,
    left: Result<Seq<AmountRowView>, WriteFault>,
    right: Result<Seq<AmountRowView>, WriteFault>,
    base: int,
) -> Result<Seq<AmountRowView>, WriteFault> {
    match left {
        Err(f) => Err(f),
        Ok(l) => match right {
            Err(f) => Err(f),
            Ok(r) => Ok(
                l + r + seq![
                    row(
                        base + l.len() + r.len(),
                        kind,
                        None,
                        None,
                        None,
                        Some((base + l.len() - 1) as i64),
                        Some((base + l.len() + r.len() - 1) as i64),
                    ),
                ],
            ),
        },
    }
}

pub open spec fn unary_rows(
    kind: Seq<char>,
    value: Option<u64>,
    inner: Result<Seq<AmountRowView>, WriteFault>,
    base: int,
) -> Result<Seq<AmountRowView>, WriteFault> {
    match inner {
        Err(f) => Err(f),
        Ok(i) => Ok(
            i.push(row(base + i.len(), kind, value, None, None, Some((base + i.len() - 1) as i64), None)),
        ),
    }
}

/// A tree laid out as rows, ids numbered from `base` in the order the rows
/// are written: the node's depth is checked first, then that no expression
/// stands below it, then its left operand is written, then its right, then
/// the node itself. An expression is written as a zero `Fixed` row carrying
/// its text.
pub open spec fn amount_layout(m: AmountModel, depth: nat, base: int) -> Result<Seq<AmountRowView>, WriteFault>
    decreases m,
{
    if depth > MAX_SPEC_DEPTH {
        Err(WriteFault::TooDeep)
    } else if nests_expression(m) {
        Err(WriteFault::NestedExpression)
    } else {
        match m {
            AmountModel::Expression(s) => Ok(
                seq![(base as i64, "Fixed"@, Some(0u64), None, None, None, None, Some(s))],
            ),
            AmountModel::Fixed(v) => Ok(seq![row(base, "Fixed"@, Some(v), None, None, None, None)]),
            AmountModel::TargetToBalance(v) => Ok(
                seq![row(base, "TargetToBalance"@, Some(v), None, None, None, None)],
            ),
            AmountModel::SourceBalance => Ok(
                seq![row(base, "SourceBalance"@, None, None, None, None, None)],
            ),
            AmountModel::ZeroTargetBalance => Ok(
                seq![row(base, "ZeroTargetBalance"@, None, None, None, None, None)],
            ),
            AmountModel::AssetBalance(a, s) => Ok(
                seq![row(base, "AssetBalance"@, None, Some(a), Some(s), None, None)],
            ),
            AmountModel::AccountTotalBalance(a) => Ok(
                seq![row(base, "AccountTotalBalance"@, None, Some(a), None, None, None)],
            ),
            AmountModel::AccountCashBalance(a) => Ok(
                seq![row(base, "AccountCashBalance"@, None, Some(a), None, None, None)],
            ),
            AmountModel::InflationAdjusted(i) => unary_rows(
                "InflationAdjusted"@,
                None,
                amount_layout(*i, depth + 1, base),
                base,
            ),
            AmountModel::Scale(f, i) => unary_rows(
                "Scale"@,
                Some(f),
                amount_layout(*i, depth + 1, base),
                base,
            ),
            AmountModel::Min(l, r) => binary_rows(
                "Min"@,
                amount_layout(*l, depth + 1, base),
                amount_layout(*r, depth + 1, base + node_count(*l)),
                base,
            ),
            AmountModel::Max(l, r) => binary_rows(
                "Max"@,
                amount_layout(*l, depth + 1, base),
                amount_layout(*r, depth + 1, base + node_count(*l)),
                base,
            ),
            AmountModel::Sub(l, r) => binary_rows(
                "Sub"@,
                amount_layout(*l, depth + 1, base),
                amount_layout(*r, depth + 1, base + node_count(*l)),
                base,
            ),
            AmountModel::Add(l, r) => binary_rows(
                "Add"@,
                amount_layout(*l, depth + 1, base),
                amount_layout(*r, depth + 1, base + node_count(*l)),
                base,
            ),
            AmountModel::Mul(l, r) => binary_rows(
                "Mul"@,
                amount_layout(*l, depth + 1, base),
                amount_layout(*r, depth + 1, base + node_count(*l)),
                base,
            ),
        }
    }
}

pub open spec fn write_error(f: WriteFault, e: ApiError) -> bool {
    match f {
        WriteFault::TooDeep => e matches ApiError::BadRequest(m) && m@
            == "expression nests deeper than 64 levels"@,
        WriteFault::NestedExpression => e matches ApiError::BadRequest(m) && m@
            == "an Expression must be the root amount; put the full calculation in its source"@,
    }
}

pub(crate) proof fn lemma_layout_len(m: AmountModel, depth: nat, base: int)
    ensures
        amount_layout(m, depth, base) matches Ok(rows) ==> rows.len() == node_count(m),
    decreases m,
{
    match m {
        AmountModel::InflationAdjusted(i) => lemma_layout_len(*i, depth + 1, base),
        AmountModel::Scale(_, i) => lemma_layout_len(*i, depth + 1, base),
        AmountModel::Min(l, r) => {
            lemma_layout_len(*l, depth + 1, base);
            lemma_layout_len(*r, depth + 1, base + node_count(*l));
        },
        AmountModel::Max(l, r) => {
            lemma_layout_len(*l, depth + 1, base);
            lemma_layout_len(*r, depth + 1, base + node_count(*l));
        },
        AmountModel::Sub(l, r) => {
            lemma_layout_len(*l, depth + 1, base);
            lemma_layout_len(*r, depth + 1, base + node_count(*l));
        },
        AmountModel::Add(l, r) => {
            lemma_layout_len(*l, depth + 1, base);
            lemma_layout_len(*r, depth + 1, base + node_count(*l));
        },
        AmountModel::Mul(l, r) => {
            lemma_layout_len(*l, depth + 1, base);
            lemma_layout_len(*r, depth + 1, base + node_count(*l));
        },
        _ => {},
    }
}

fn leaf(id: i64, kind: &str, value_bits: Option<u64>, account_id: Option<i64>, asset_id: Option<i64>) -> (r: TransferAmountRow)
    ensures
        amount_row_view(r) == row(id as int, kind@, value_bits, account_id, asset_id, None, None),
{
    TransferAmountRow {
        id,
        kind: owned(kind),
        value_bits,
        account_id,
        asset_id,
        left_id: None,
        right_id: None,
        expression_source: None,
    }
}

fn is_expr(a: &AmountSpec) -> (r: bool)
    ensures
        r == is_expression(a@),
{
    match a {
        AmountSpec::Expression { .. } => true,
        _ => false,
    }
}

fn nested(a: &AmountSpec) -> (r: bool)
    ensures
        r == nests_expression(a@),
{
    match a {
        AmountSpec::InflationAdjusted { inner } => is_expr(inner),
        AmountSpec::Scale { inner, .. } => is_expr(inner),
        AmountSpec::Min { left, right } => is_expr(left) || is_expr(right),
        AmountSpec::Max { left, right } => is_expr(left) || is_expr(right),
        AmountSpec::Sub { left, right } => is_expr(left) || is_expr(right),
        AmountSpec::Add { left, right } => is_expr(left) || is_expr(right),
        AmountSpec::Mul { left, right } => is_expr(left) || is_expr(right),
        _ => false,
    }
}

/// The rows of a binary node from its two subtrees' rows.
fn join_binary(
    kind: &str,
    mut left: Vec<TransferAmountRow>,
    mut right: Vec<TransferAmountRow>,
    base: i64,
) -> (r: Vec<TransferAmountRow>)
    requires
        left@.len() >= 1,
        right@.len() >= 1,
        base >= 0,
        base + left@.len() + right@.len() <= i64::MAX,
    ensures
        amount_row_views(r@) == amount_row_views(left@) + amount_row_views(right@) + seq![
            row(
                base + left@.len() + right@.len(),
                kind@,
                None,
                None,
                None,
                Some((base + left@.len() - 1) as i64),
                Some((base + left@.len() + right@.len() - 1) as i64),
            ),
        ],
{
    let nl = left.len() as i64;
    let nr = right.len() as i64;
    let ghost lv = left@;
    let ghost rv = right@;
    left.append(&mut right);
    left.push(
        TransferAmountRow {
            id: base + nl + nr,
            kind: owned(kind),
            value_bits: None,
            account_id: None,
            asset_id: None,
            left_id: Some(base + nl - 1),
            right_id: Some(base + nl + nr - 1),
            expression_source: None,
        },
    );
    assert(amount_row_views(left@) == amount_row_views(lv) + amount_row_views(rv) + seq![
        row(
            base + lv.len() + rv.len(),
            kind@,
            None,
            None,
            None,
            Some((base + lv.len() - 1) as i64),
            Some((base + lv.len() + rv.len() - 1) as i64),
        ),
    ]);
    left
}

/// The rows of a unary node from its operand's rows.
fn join_unary(kind: &str, value_bits: Option<u64>, mut inner: Vec<TransferAmountRow>, base: i64) -> (r:
    Vec<TransferAmountRow>)
    requires
        inner@.len() >= 1,
        base >= 0,
        base + inner@.len() <= i64::MAX,
    ensures
        amount_row_views(r@) == amount_row_views(inner@).push(
            row(
                base + inner@.len(),
                kind@,
                value_bits,
                None,
                None,
                Some((base + inner@.len() - 1) as i64),
                None,
            ),
        ),
{
    let n = inner.len() as i64;
    let ghost iv = inner@;
    inner.push(
        TransferAmountRow {
            id: base + n,
            kind: owned(kind),
            value_bits,
            account_id: None,
            asset_id: None,
            left_id: Some(base + n - 1),
            right_id: None,
            expression_source: None,
        },
    );
    assert(amount_row_views(inner@) == amount_row_views(iv).push(
        row(base + iv.len(), kind@, value_bits, None, None, Some((base + iv.len() - 1) as i64), None),
    ));
    inner
}

/// Lay a tree out as rows numbered from `base`, as [`amount_layout`] says.
pub fn amount_rows(spec: &AmountSpec, depth: usize, base: i64) -> (r: Result<Vec<TransferAmountRow>, ApiError>)
    requires
        base >= 0,
        base + node_count(spec@) <= i64::MAX,
    ensures
        match amount_layout(spec@, depth as nat, base as int) {
            Ok(rows) => r matches Ok(v) && amount_row_views(v@) == rows,
            Err(f) => r matches Err(e) && write_error(f, e),
        },
    decreases spec,
{
    match check_depth(depth) {
        Ok(()) => {},
        Err(e) => return Err(e),
    }
    if nested(spec) {
        return Err(
            ApiError::bad_request(
                "an Expression must be the root amount; put the full calculation in its source",
            ),
        );
    }
    proof {
        lemma_layout_len(spec@, depth as nat, base as int);
    }
    match spec {
        AmountSpec::Expression { source } => {
            let r = TransferAmountRow {
                id: base,
                kind: owned("Fixed"),
                value_bits: Some(0),
                account_id: None,
                asset_id: None,
                left_id: None,
                right_id: None,
                expression_source: Some(owned(source.as_str())),
            };
            let v = vec![r];
            assert(amount_row_views(v@) =~= seq![amount_row_view(r)]);
            Ok(v)
        },
        AmountSpec::Fixed { value_bits } => {
            let v = vec![leaf(base, "Fixed", Some(*value_bits), None, None)];
            assert(amount_row_views(v@) =~= seq![amount_row_view(v@[0])]);
            Ok(v)
        },
        AmountSpec::TargetToBalance { value_bits } => {
            let v = vec![leaf(base, "TargetToBalance", Some(*value_bits), None, None)];
            assert(amount_row_views(v@) =~= seq![amount_row_view(v@[0])]);
            Ok(v)
        },
        AmountSpec::SourceBalance => {
            let v = vec![leaf(base, "SourceBalance", None, None, None)];
            assert(amount_row_views(v@) =~= seq![amount_row_view(v@[0])]);
            Ok(v)
        },
        AmountSpec::ZeroTargetBalance => {
            let v = vec![leaf(base, "ZeroTargetBalance", None, None, None)];
            assert(amount_row_views(v@) =~= seq![amount_row_view(v@[0])]);
            Ok(v)
        },
        AmountSpec::AssetBalance { account_id, asset_id } => {
            let v = vec![leaf(base, "AssetBalance", None, Some(*account_id), Some(*asset_id))];
            assert(amount_row_views(v@) =~= seq![amount_row_view(v@[0])]);
            Ok(v)
        },
        AmountSpec::AccountTotalBalance { account_id } => {
            let v = vec![leaf(base, "AccountTotalBalance", None, Some(*account_id), None)];
            assert(amount_row_views(v@) =~= seq![amount_row_view(v@[0])]);
            Ok(v)
        },
        AmountSpec::AccountCashBalance { account_id } => {
            let v = vec![leaf(base, "AccountCashBalance", None, Some(*account_id), None)];
            assert(amount_row_views(v@) =~= seq![amount_row_view(v@[0])]);
            Ok(v)
        },
        AmountSpec::InflationAdjusted { inner } => {
            let rows = match amount_rows(inner, depth + 1, base) {
                Ok(rows) => rows,
                Err(e) => return Err(e),
            };
            proof {
                lemma_layout_len(inner@, (depth + 1) as nat, base as int);
            }
            Ok(join_unary("InflationAdjusted", None, rows, base))
        },
        AmountSpec::Scale { factor_bits, inner } => {
            let rows = match amount_rows(inner, depth + 1, base) {
                Ok(rows) => rows,
                Err(e) => return Err(e),
            };
            proof {
                lemma_layout_len(inner@, (depth + 1) as nat, base as int);
            }
            Ok(join_unary("Scale", Some(*factor_bits), rows, base))
        },
        AmountSpec::Min { left, right }
        | AmountSpec::Max { left, right }
        | AmountSpec::Sub { left, right }
        | AmountSpec::Add { left, right }
        | AmountSpec::Mul { left, right } => {
            let kind = match spec {
                AmountSpec::Min { .. } => "Min",
                AmountSpec::Max { .. } => "Max",
                AmountSpec::Sub { .. } => "Sub",
                AmountSpec::Add { .. } => "Add",
                _ => "Mul",
            };
            let l = match amount_rows(left, depth + 1, base) {
                Ok(rows) => rows,
                Err(e) => return Err(e),
            };
            proof {
                lemma_layout_len(left@, (depth + 1) as nat, base as int);
                lemma_layout_len(right@, (depth + 1) as nat, base + node_count(left@));
            }
            let next = base + l.len() as i64;
            let r = match amount_rows(right, depth + 1, next) {
                Ok(rows) => rows,
                Err(e) => return Err(e),
            };
            Ok(join_binary(kind, l, r, base))
        },
    }
}

/// Why rows cannot be read back as a tree.
pub enum ReadFault {
    /// The walk went deeper than any written tree can: the rows loop.
    Cyclic,
    /// No row has the id asked for.
    Missing,
    /// A node lacks its (left) operand.
    NoOperand,
    /// A binary node lacks its right operand.
    NoRightOperand,
}

/// The bit pattern of the double 1.0.
pub const ONE_BITS: u64 = 0x3FF0_0000_0000_0000;

/// The position of the first row with this id, or -1.
pub open spec fn row_index(rows: Seq<AmountRowView>, id: i64) -> int
    decreases rows.len(),
{
    if rows.len() == 0 {
        -1
    } else {
        let k = row_index(rows.drop_last(), id);
        if k >= 0 {
            k
        } else if rows.last().0 == id {
            rows.len() - 1
        } else {
            -1
        }
    }
}

pub open spec fn bits_or(v: Option<u64>, d: u64) -> u64 {
    match v {
        Some(x) => x,
        None => d,
    }
}

pub open spec fn id_or_zero(v: Option<i64>) -> i64 {
    match v {
        Some(x) => x,
        None => 0,
    }
}

pub open spec fn binary_node(kind: Seq<char>, l: AmountModel, r: AmountModel) -> AmountModel {
    if kind == "Min"@ {
        AmountModel::Min(Box::new(l), Box::new(r))
    } else if kind == "Max"@ {
        AmountModel::Max(Box::new(l), Box::new(r))
    } else if kind == "Sub"@ {
        AmountModel::Sub(Box::new(l), Box::new(r))
    } else if kind == "Add"@ {
        AmountModel::Add(Box::new(l), Box::new(r))
    } else {
        AmountModel::Mul(Box::new(l), Box::new(r))
    }
}

/// The tree rooted at row `id`: past depth 64 the rows are taken to loop; a
/// row with expression text is that expression; otherwise its kind says
/// what it is, a missing number reading as zero (as one for a scale), a
/// missing account or asset as zero, and an unknown kind as a product.
/// Operands are read left, then right.
pub open spec fn read_model(rows: Seq<AmountRowView>, id: i64, depth: nat) -> Result<AmountModel, ReadFault>
    decreases 65 - depth,
{
    if depth > 64 {
        Err(ReadFault::Cyclic)
    } else {
        let i = row_index(rows, id);
        if i < 0 {
            Err(ReadFault::Missing)
        } else {
            let r = rows[i];
            match r.7 {
                Some(s) => Ok(AmountModel::Expression(s)),
                None => {
                    let k = r.1;
                    if k == "Fixed"@ {
                        Ok(AmountModel::Fixed(bits_or(r.2, 0)))
                    } else if k == "TargetToBalance"@ {
                        Ok(AmountModel::TargetToBalance(bits_or(r.2, 0)))
                    } else if k == "SourceBalance"@ {
                        Ok(AmountModel::SourceBalance)
                    } else if k == "ZeroTargetBalance"@ {
                        Ok(AmountModel::ZeroTargetBalance)
                    } else if k == "InflationAdjusted"@ {
                        match r.5 {
                            None => Err(ReadFault::NoOperand),
                            Some(l) => match read_model(rows, l, depth + 1) {
                                Ok(m) => Ok(AmountModel::InflationAdjusted(Box::new(m))),
                                Err(f) => Err(f),
                            },
                        }
                    } else if k == "Scale"@ {
                        match r.5 {
                            None => Err(ReadFault::NoOperand),
                            Some(l) => match read_model(rows, l, depth + 1) {
                                Ok(m) => Ok(AmountModel::Scale(bits_or(r.2, ONE_BITS), Box::new(m))),
                                Err(f) => Err(f),
                            },
                        }
                    } else if k == "AssetBalance"@ {
                        Ok(AmountModel::AssetBalance(id_or_zero(r.3), id_or_zero(r.4)))
                    } else if k == "AccountTotalBalance"@ {
                        Ok(AmountModel::AccountTotalBalance(id_or_zero(r.3)))
                    } else if k == "AccountCashBalance"@ {
                        Ok(AmountModel::AccountCashBalance(id_or_zero(r.3)))
                    } else {
                        match r.5 {
                            None => Err(ReadFault::NoOperand),
                            Some(l) => match read_model(rows, l, depth + 1) {
                                Err(f) => Err(f),
                                Ok(lm) => match r.6 {
                                    None => Err(ReadFault::NoRightOperand),
                                    Some(rr) => match read_model(rows, rr, depth + 1) {
                                        Err(f) => Err(f),
                                        Ok(rm) => Ok(binary_node(k, lm, rm)),
                                    },
                                },
                            },
                        }
                    }
                },
            }
        }
    }
}

pub open spec fn read_error(f: ReadFault, e: ApiError) -> bool {
    match f {
        ReadFault::Cyclic => e matches ApiError::Internal(m) && m@ == "transfer amount graph is cyclic"@,
        ReadFault::Missing => e == ApiError::NotFound("transfer amount"),
        ReadFault::NoOperand => e matches ApiError::Internal(m) && m@ == "amount is missing its operand"@,
        ReadFault::NoRightOperand => e matches ApiError::Internal(m) && m@
            == "amount is missing its right operand"@,
    }
}

proof fn lemma_row_index(rows: Seq<AmountRowView>, id: i64)
    ensures
        row_index(rows, id) < rows.len(),
        row_index(rows, id) >= 0 ==> rows[row_index(rows, id)].0 == id && forall|j: int|
            0 <= j < row_index(rows, id) ==> rows[j].0 != id,
        row_index(rows, id) < 0 ==> (row_index(rows, id) == -1 && forall|j: int| 0 <= j < rows.len() ==> rows[j].0 != id),
    decreases rows.len(),
{
    if rows.len() > 0 {
        let d = rows.drop_last();
        lemma_row_index(d, id);
        assert forall|j: int| 0 <= j < d.len() implies d[j] == rows[j] by {}
    }
}

/// The first row with a given id.
fn find_amount_row(rows: &[TransferAmountRow], id: i64) -> (r: Option<usize>)
    ensures
        match r {
            Some(i) => i < rows@.len() && i as int == row_index(amount_row_views(rows@), id),
            None => row_index(amount_row_views(rows@), id) < 0,
        },
{
    let ghost v = amount_row_views(rows@);
    proof {
        lemma_row_index(v, id);
    }
    let mut i: usize = 0;
    while i < rows.len()
        invariant
            i <= rows@.len(),
            v == amount_row_views(rows@),
            forall|j: int| 0 <= j < i ==> v[j].0 != id,
        decreases rows@.len() - i,
    {
        if rows[i].id == id {
            proof {
                lemma_row_index(v, id);
                let k = row_index(v, id);
                if k < 0 {
                    assert(v[i as int].0 == id);
                } else if k > i {
                    assert(v[i as int].0 == id);
                }
            }
            return Some(i);
        }
        i = i + 1;
    }
    proof {
        lemma_row_index(v, id);
        let k = row_index(v, id);
        if k >= 0 {
            assert(v[k].0 == id);
        }
    }
    None
}

/// Read the tree rooted at row `id` back, as [`read_model`] says.
pub fn read_amount(rows: &[TransferAmountRow], id: i64, depth: usize) -> (r: Result<AmountSpec, ApiError>)
    ensures
        match read_model(amount_row_views(rows@), id, depth as nat) {
            Ok(m) => r matches Ok(a) && a@ == m,
            Err(f) => r matches Err(e) && read_error(f, e),
        },
    decreases 65 - depth,
{
    if depth > 64 {
        return Err(ApiError::internal("transfer amount graph is cyclic"));
    }
    let i = match find_amount_row(rows, id) {
        Some(i) => i,
        None => return Err(ApiError::NotFound("transfer amount")),
    };
    let row = &rows[i];
    assert(amount_row_views(rows@)[i as int] == amount_row_view(rows@[i as int]));
    if let Some(source) = &row.expression_source {
        return Ok(AmountSpec::Expression { source: owned(source.as_str()) });
    }
    let k = row.kind.as_str();
    if same_text(k, "Fixed") {
        return Ok(AmountSpec::Fixed { value_bits: match row.value_bits { Some(v) => v, None => 0 } });
    }
    if same_text(k, "TargetToBalance") {
        return Ok(
            AmountSpec::TargetToBalance { value_bits: match row.value_bits { Some(v) => v, None => 0 } },
        );
    }
    if same_text(k, "SourceBalance") {
        return Ok(AmountSpec::SourceBalance);
    }
    if same_text(k, "ZeroTargetBalance") {
        return Ok(AmountSpec::ZeroTargetBalance);
    }
    if same_text(k, "InflationAdjusted") || same_text(k, "Scale") {
        let l = match row.left_id {
            Some(l) => l,
            None => return Err(ApiError::internal("amount is missing its operand")),
        };
        let inner = match read_amount(rows, l, depth + 1) {
            Ok(a) => a,
            Err(e) => return Err(e),
        };
        if same_text(k, "InflationAdjusted") {
            return Ok(AmountSpec::InflationAdjusted { inner: Box::new(inner) });
        }
        return Ok(
            AmountSpec::Scale {
                factor_bits: match row.value_bits {
                    Some(v) => v,
                    None => ONE_BITS,
                },
                inner: Box::new(inner),
            },
        );
    }
    let account = match row.account_id {
        Some(a) => a,
        None => 0,
    };
    if same_text(k, "AssetBalance") {
        return Ok(
            AmountSpec::AssetBalance {
                account_id: account,
                asset_id: match row.asset_id {
                    Some(a) => a,
                    None => 0,
                },
            },
        );
    }
    if same_text(k, "AccountTotalBalance") {
        return Ok(AmountSpec::AccountTotalBalance { account_id: account });
    }
    if same_text(k, "AccountCashBalance") {
        return Ok(AmountSpec::AccountCashBalance { account_id: account });
    }
    let l = match row.left_id {
        Some(l) => l,
        None => return Err(ApiError::internal("amount is missing its operand")),
    };
    let left = match read_amount(rows, l, depth + 1) {
        Ok(a) => a,
        Err(e) => return Err(e),
    };
    let rr = match row.right_id {
        Some(x) => x,
        None => return Err(ApiError::internal("amount is missing its right operand")),
    };
    let right = match read_amount(rows, rr, depth + 1) {
        Ok(a) => a,
        Err(e) => return Err(e),
    };
    let (left, right) = (Box::new(left), Box::new(right));
    if same_text(k, "Min") {
        Ok(AmountSpec::Min { left, right })
    } else if same_text(k, "Max") {
        Ok(AmountSpec::Max { left, right })
    } else if same_text(k, "Sub") {
        Ok(AmountSpec::Sub { left, right })
    } else if same_text(k, "Add") {
        Ok(AmountSpec::Add { left, right })
    } else {
        Ok(AmountSpec::Mul { left, right })
    }
}

proof fn lemma_count_positive(m: AmountModel)
    ensures
        node_count(m) >= 1,
{
}

pub(crate) proof fn lemma_layout_ids(m: AmountModel, depth: nat, base: int)
    requires
        base >= 0,
        base + node_count(m) <= i64::MAX,
    ensures
        amount_layout(m, depth, base) matches Ok(rows) ==> (depth <= MAX_SPEC_DEPTH && forall|i: int|
            0 <= i < rows.len() ==> #[trigger] rows[i].0 == base + i),
    decreases m,
{
    lemma_layout_len(m, depth, base);
    match m {
        AmountModel::InflationAdjusted(i) => {
            lemma_layout_ids(*i, depth + 1, base);
            lemma_layout_len(*i, depth + 1, base);
        },
        AmountModel::Scale(_, i) => {
            lemma_layout_ids(*i, depth + 1, base);
            lemma_layout_len(*i, depth + 1, base);
        },
        AmountModel::Min(l, r)
        | AmountModel::Max(l, r)
        | AmountModel::Sub(l, r)
        | AmountModel::Add(l, r)
        | AmountModel::Mul(l, r) => {
            lemma_layout_ids(*l, depth + 1, base);
            lemma_layout_len(*l, depth + 1, base);
            lemma_layout_ids(*r, depth + 1, base + node_count(*l));
            lemma_layout_len(*r, depth + 1, base + node_count(*l));
        },
        _ => {},
    }
}

/// Where rows are numbered consecutively from `b0`, the first row with an id
/// in range is the one at that offset.
proof fn lemma_index_of_numbered(all: Seq<AmountRowView>, b0: int, id: i64)
    requires
        forall|i: int| 0 <= i < all.len() ==> #[trigger] all[i].0 == b0 + i,
        b0 <= id < b0 + all.len(),
    ensures
        row_index(all, id) == id - b0,
{
    lemma_row_index(all, id);
    let k = row_index(all, id);
    assert(all[id - b0].0 == id);
    if k >= 0 {
        assert(all[k].0 == id);
    }
}

/// The stored kind names are all different.
proof fn lemma_kind_names()
    ensures
        "Fixed"@ != "TargetToBalance"@,
        "Fixed"@ != "SourceBalance"@,
        "Fixed"@ != "ZeroTargetBalance"@,
        "Fixed"@ != "InflationAdjusted"@,
        "Fixed"@ != "Scale"@,
        "Fixed"@ != "AssetBalance"@,
        "Fixed"@ != "AccountTotalBalance"@,
        "Fixed"@ != "AccountCashBalance"@,
        "Fixed"@ != "Min"@,
        "Fixed"@ != "Max"@,
        "Fixed"@ != "Sub"@,
        "Fixed"@ != "Add"@,
        "Fixed"@ != "Mul"@,
        "TargetToBalance"@ != "SourceBalance"@,
        "TargetToBalance"@ != "ZeroTargetBalance"@,
        "TargetToBalance"@ != "InflationAdjusted"@,
        "TargetToBalance"@ != "Scale"@,
        "TargetToBalance"@ != "AssetBalance"@,
        "TargetToBalance"@ != "AccountTotalBalance"@,
        "TargetToBalance"@ != "AccountCashBalance"@,
        "TargetToBalance"@ != "Min"@,
        "TargetToBalance"@ != "Max"@,
        "TargetToBalance"@ != "Sub"@,
        "TargetToBalance"@ != "Add"@,
        "TargetToBalance"@ != "Mul"@,
        "SourceBalance"@ != "ZeroTargetBalance"@,
        "SourceBalance"@ != "InflationAdjusted"@,
        "SourceBalance"@ != "Scale"@,
        "SourceBalance"@ != "AssetBalance"@,
        "SourceBalance"@ != "AccountTotalBalance"@,
        "SourceBalance"@ != "AccountCashBalance"@,
        "SourceBalance"@ != "Min"@,
        "SourceBalance"@ != "Max"@,
        "SourceBalance"@ != "Sub"@,
        "SourceBalance"@ != "Add"@,
        "SourceBalance"@ != "Mul"@,
        "ZeroTargetBalance"@ != "InflationAdjusted"@,
        "ZeroTargetBalance"@ != "Scale"@,
        "ZeroTargetBalance"@ != "AssetBalance"@,
        "ZeroTargetBalance"@ != "AccountTotalBalance"@,
        "ZeroTargetBalance"@ != "AccountCashBalance"@,
        "ZeroTargetBalance"@ != "Min"@,
        "ZeroTargetBalance"@ != "Max"@,
        "ZeroTargetBalance"@ != "Sub"@,
        "ZeroTargetBalance"@ != "Add"@,
        "ZeroTargetBalance"@ != "Mul"@,
        "InflationAdjusted"@ != "Scale"@,
        "InflationAdjusted"@ != "AssetBalance"@,
        "InflationAdjusted"@ != "AccountTotalBalance"@,
        "InflationAdjusted"@ != "AccountCashBalance"@,
        "InflationAdjusted"@ != "Min"@,
        "InflationAdjusted"@ != "Max"@,
        "InflationAdjusted"@ != "Sub"@,
        "InflationAdjusted"@ != "Add"@,
        "InflationAdjusted"@ != "Mul"@,
        "Scale"@ != "AssetBalance"@,
        "Scale"@ != "AccountTotalBalance"@,
        "Scale"@ != "AccountCashBalance"@,
        "Scale"@ != "Min"@,
        "Scale"@ != "Max"@,
        "Scale"@ != "Sub"@,
        "Scale"@ != "Add"@,
        "Scale"@ != "Mul"@,
        "AssetBalance"@ != "AccountTotalBalance"@,
        "AssetBalance"@ != "AccountCashBalance"@,
        "AssetBalance"@ != "Min"@,
        "AssetBalance"@ != "Max"@,
        "AssetBalance"@ != "Sub"@,
        "AssetBalance"@ != "Add"@,
        "AssetBalance"@ != "Mul"@,
        "AccountTotalBalance"@ != "AccountCashBalance"@,
        "AccountTotalBalance"@ != "Min"@,
        "AccountTotalBalance"@ != "Max"@,
        "AccountTotalBalance"@ != "Sub"@,
        "AccountTotalBalance"@ != "Add"@,
        "AccountTotalBalance"@ != "Mul"@,
        "AccountCashBalance"@ != "Min"@,
        "AccountCashBalance"@ != "Max"@,
        "AccountCashBalance"@ != "Sub"@,
        "AccountCashBalance"@ != "Add"@,
        "AccountCashBalance"@ != "Mul"@,
        "Min"@ != "Max"@,
        "Min"@ != "Sub"@,
        "Min"@ != "Add"@,
        "Min"@ != "Mul"@,
        "Max"@ != "Sub"@,
        "Max"@ != "Add"@,
        "Max"@ != "Mul"@,
        "Sub"@ != "Add"@,
        "Sub"@ != "Mul"@,
        "Add"@ != "Mul"@,
{
    reveal_strlit("Fixed");
    reveal_strlit("TargetToBalance");
    reveal_strlit("SourceBalance");
    reveal_strlit("ZeroTargetBalance");
    reveal_strlit("InflationAdjusted");
    reveal_strlit("Scale");
    reveal_strlit("AssetBalance");
    reveal_strlit("AccountTotalBalance");
    reveal_strlit("AccountCashBalance");
    reveal_strlit("Min");
    reveal_strlit("Max");
    reveal_strlit("Sub");
    reveal_strlit("Add");
    reveal_strlit("Mul");
    assert("Fixed"@.len() == 5);
    assert("TargetToBalance"@.len() == 15);
    assert("SourceBalance"@.len() == 13);
    assert("ZeroTargetBalance"@.len() == 17);
    assert("InflationAdjusted"@.len() == 17);
    assert("Scale"@.len() == 5);
    assert("AssetBalance"@.len() == 12);
    assert("AccountTotalBalance"@.len() == 19);
    assert("AccountCashBalance"@.len() == 18);
    assert("Min"@.len() == 3);
    assert("Max"@.len() == 3);
    assert("Sub"@.len() == 3);
    assert("Add"@.len() == 3);
    assert("Mul"@.len() == 3);
    assert("Fixed"@[0] != "Scale"@[0]);
    assert("ZeroTargetBalance"@[0] != "InflationAdjusted"@[0]);
    assert("Min"@[1] != "Max"@[1]);
    assert("Min"@[0] != "Sub"@[0]);
    assert("Min"@[0] != "Add"@[0]);
    assert("Min"@[1] != "Mul"@[1]);
    assert("Max"@[0] != "Sub"@[0]);
    assert("Max"@[0] != "Add"@[0]);
    assert("Max"@[1] != "Mul"@[1]);
    assert("Sub"@[0] != "Add"@[0]);
    assert("Sub"@[0] != "Mul"@[0]);
    assert("Add"@[0] != "Mul"@[0]);
}

/// A leaf's row reads back as the leaf.
proof fn lemma_read_leaf(all: Seq<AmountRowView>, b0: int, m: AmountModel, depth: nat, base: int)
    requires
        0 <= base - b0 < all.len(),
        b0 >= 0,
        depth <= 64,
        row_index(all, base as i64) == base - b0,
        !(m is InflationAdjusted || m is Scale || m is Min || m is Max || m is Sub || m is Add
            || m is Mul),
        amount_layout(m, depth, base) is Ok,
        all[base - b0] == amount_layout(m, depth, base)->Ok_0[0],
    ensures
        read_model(all, base as i64, depth) == Ok::<AmountModel, ReadFault>(m),
{
    lemma_kind_names();
}

/// A unary node's row reads back as the node, given its operand does.
proof fn lemma_read_unary(all: Seq<AmountRowView>, b0: int, m: AmountModel, depth: nat, base: int)
    requires
        m is InflationAdjusted || m is Scale,
        b0 >= 0,
        depth <= 64,
        base >= b0,
        base + node_count(m) <= i64::MAX,
        base - b0 + node_count(m) <= all.len(),
        row_index(all, (base + node_count(m) - 1) as i64) == base - b0 + node_count(m) - 1,
        amount_layout(m, depth, base) is Ok,
        all[base - b0 + node_count(m) - 1] == amount_layout(m, depth, base)->Ok_0[node_count(m) - 1],
        match m {
            AmountModel::InflationAdjusted(i) => read_model(all, (base + node_count(*i) - 1) as i64, depth + 1)
                == Ok::<AmountModel, ReadFault>(*i),
            AmountModel::Scale(_, i) => read_model(all, (base + node_count(*i) - 1) as i64, depth + 1)
                == Ok::<AmountModel, ReadFault>(*i),
            _ => true,
        },
    ensures
        read_model(all, (base + node_count(m) - 1) as i64, depth) == Ok::<AmountModel, ReadFault>(m),
{
    lemma_kind_names();
    let node = all[base - b0 + node_count(m) - 1];
    match m {
        AmountModel::InflationAdjusted(i) => {
            lemma_layout_len(*i, depth + 1, base);
            let irows = amount_layout(*i, depth + 1, base)->Ok_0;
            assert(node == row(
                base + irows.len(),
                "InflationAdjusted"@,
                None,
                None,
                None,
                Some((base + irows.len() - 1) as i64),
                None,
            ));
        },
        AmountModel::Scale(f, i) => {
            lemma_layout_len(*i, depth + 1, base);
            let irows = amount_layout(*i, depth + 1, base)->Ok_0;
            assert(node == row(
                base + irows.len(),
                "Scale"@,
                Some(f),
                None,
                None,
                Some((base + irows.len() - 1) as i64),
                None,
            ));
        },
        _ => {},
    }
}

/// A binary node's row reads back as the node, given its operands do.
proof fn lemma_read_node2(all: Seq<AmountRowView>, b0: int, m: AmountModel, depth: nat, base: int)
    requires
        m is Min || m is Max || m is Sub || m is Add || m is Mul,
        b0 >= 0,
        depth <= 64,
        base >= b0,
        base + node_count(m) <= i64::MAX,
        base - b0 + node_count(m) <= all.len(),
        row_index(all, (base + node_count(m) - 1) as i64) == base - b0 + node_count(m) - 1,
        amount_layout(m, depth, base) is Ok,
        all[base - b0 + node_count(m) - 1] == amount_layout(m, depth, base)->Ok_0[node_count(m) - 1],
        match m {
            AmountModel::Min(l, r) | AmountModel::Max(l, r) | AmountModel::Sub(l, r) | AmountModel::Add(
                l,
                r,
            ) | AmountModel::Mul(l, r) => read_model(all, (base + node_count(*l) - 1) as i64, depth + 1)
                == Ok::<AmountModel, ReadFault>(*l) && read_model(
                all,
                (base + node_count(*l) + node_count(*r) - 1) as i64,
                depth + 1,
            ) == Ok::<AmountModel, ReadFault>(*r),
            _ => true,
        },
    ensures
        read_model(all, (base + node_count(m) - 1) as i64, depth) == Ok::<AmountModel, ReadFault>(m),
{
    lemma_kind_names();
    let node = all[base - b0 + node_count(m) - 1];
    match m {
        AmountModel::Min(l, r) | AmountModel::Max(l, r) | AmountModel::Sub(l, r) | AmountModel::Add(
            l,
            r,
        ) | AmountModel::Mul(l, r) => {
            lemma_layout_len(*l, depth + 1, base);
            lemma_layout_len(*r, depth + 1, base + node_count(*l));
            let nl = node_count(*l) as int;
            let nr = node_count(*r) as int;
            assert(node == row(
                base + nl + nr,
                binary_kind(m),
                None,
                None,
                None,
                Some((base + nl - 1) as i64),
                Some((base + nl + nr - 1) as i64),
            ));
            assert(binary_node(binary_kind(m), *l, *r) == m);
        },
        _ => {},
    }
}

#[verifier::rlimit(50)]
pub(crate) proof fn lemma_read_within(all: Seq<AmountRowView>, b0: int, m: AmountModel, depth: nat, base: int)
    requires
        forall|i: int| 0 <= i < all.len() ==> #[trigger] all[i].0 == b0 + i,
        b0 >= 0,
        b0 <= base,
        base + node_count(m) <= b0 + all.len(),
        base + node_count(m) <= i64::MAX,
        amount_layout(m, depth, base) is Ok,
        all.subrange(base - b0, base - b0 + node_count(m)) == amount_layout(m, depth, base)->Ok_0,
    ensures
        read_model(all, (base + node_count(m) - 1) as i64, depth) == Ok::<AmountModel, ReadFault>(m),
    decreases m,
{
    let rows = amount_layout(m, depth, base)->Ok_0;
    lemma_layout_len(m, depth, base);
    lemma_layout_ids(m, depth, base);
    lemma_count_positive(m);
    let n = node_count(m) as int;
    let root = (base + n - 1) as i64;
    lemma_index_of_numbered(all, b0, root);
    assert(all[base - b0 + n - 1] == rows[n - 1]);
    match m {
        AmountModel::InflationAdjusted(i) | AmountModel::Scale(_, i) => {
            lemma_layout_len(*i, depth + 1, base);
            let ni = node_count(*i) as int;
            let irows = amount_layout(*i, depth + 1, base)->Ok_0;
            assert(all.subrange(base - b0, base - b0 + ni) == irows) by {
                assert forall|k: int| 0 <= k < ni implies all.subrange(base - b0, base - b0 + ni)[k]
                    == irows[k] by {
                    assert(rows[k] == irows[k]);
                    assert(all.subrange(base - b0, base - b0 + n)[k] == rows[k]);
                }
            }
            lemma_read_within(all, b0, *i, depth + 1, base);
            lemma_read_unary(all, b0, m, depth, base);
        },
        AmountModel::Min(l, r)
        | AmountModel::Max(l, r)
        | AmountModel::Sub(l, r)
        | AmountModel::Add(l, r)
        | AmountModel::Mul(l, r) => {
            let nl = node_count(*l) as int;
            let nr = node_count(*r) as int;
            lemma_layout_len(*l, depth + 1, base);
            lemma_layout_len(*r, depth + 1, base + nl);
            let lrows = amount_layout(*l, depth + 1, base)->Ok_0;
            let rrows = amount_layout(*r, depth + 1, base + nl)->Ok_0;
            assert(rows == lrows + rrows + seq![rows[nl + nr]]);
            assert(all.subrange(base - b0, base - b0 + nl) == lrows) by {
                assert forall|k: int| 0 <= k < nl implies all.subrange(base - b0, base - b0 + nl)[k]
                    == lrows[k] by {
                    assert(rows[k] == lrows[k]);
                    assert(all.subrange(base - b0, base - b0 + n)[k] == rows[k]);
                }
            }
            assert(all.subrange(base + nl - b0, base + nl - b0 + nr) == rrows) by {
                assert forall|k: int| 0 <= k < nr implies all.subrange(base + nl - b0, base + nl - b0 + nr)[k]
                    == rrows[k] by {
                    assert(rows[nl + k] == rrows[k]);
                    assert(all.subrange(base - b0, base - b0 + n)[nl + k] == rows[nl + k]);
                }
            }
            lemma_read_within(all, b0, *l, depth + 1, base);
            lemma_read_within(all, b0, *r, depth + 1, base + nl);
            lemma_read_node2(all, b0, m, depth, base);
        },
        _ => {
            assert(all.subrange(base - b0, base - b0 + n)[0] == rows[0]);
            lemma_read_leaf(all, b0, m, depth, base);
        },
    }
}

/// What is written is read back: an amount that can be laid out as rows
/// numbered from `base` reads back from those rows, at its root, as the
/// same amount.
pub proof fn amount_round_trip(m: AmountModel, depth: nat, base: int)
    requires
        base >= 0,
        base + node_count(m) <= i64::MAX,
        amount_layout(m, depth, base) is Ok,
    ensures
        read_model(amount_layout(m, depth, base)->Ok_0, (base + node_count(m) - 1) as i64, depth)
            == Ok::<AmountModel, ReadFault>(m),
{
    let rows = amount_layout(m, depth, base)->Ok_0;
    lemma_layout_len(m, depth, base);
    lemma_layout_ids(m, depth, base);
    assert(rows.subrange(0, node_count(m) as int) == rows);
    lemma_read_within(rows, base, m, depth, base);
}

} // verus!
