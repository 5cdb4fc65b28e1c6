//! What the weight files of a model pack must hold.

use vstd::prelude::*;
use crate::fields;
use crate::json;
use crate::safetensors;
use crate::safetensors::{DType, SafeTensorFile};
use crate::tensor::same_dims;
use crate::text;
use crate::text::{chars_of, push_bracketed, push_usize, quote, same_text, string_of};

verus! {

broadcast use vstd::string::group_string_axioms;

/// A tensor that a weight file must hold.
#[derive(Clone, Debug)]
pub struct Requirement {
    pub name: String,
    pub dtype: DType,
    pub shape: Vec<usize>,
}

/// What a [`Requirement`] says, with name and shape as sequences.
#[verifier::ext_equal]
pub struct RequirementData {
    pub name: Seq<char>,
    pub dtype: DType,
    pub shape: Seq<usize>,
}

impl View for Requirement {
    type V = RequirementData;

    open spec fn view(&self) -> RequirementData {
        RequirementData { name: self.name@, dtype: self.dtype, shape: self.shape@ }
    }
}

/// What requirements say.
pub open spec fn requirements_of(requirements: Seq<Requirement>) -> Seq<RequirementData> {
    Seq::new(requirements.len(), |i: int| requirements[i]@)
}

/// How many tensors have names with a given root, the part before the first dot.
pub type Tree = Seq<(Seq<char>, nat)>;

/// Why a weight file is refused.
#[allow(inconsistent_fields)]
#[derive(Clone, Debug, PartialEq, Eq)]
pub enum WeightsError {
    Missing { name: String },
    Type { name: String, actual: DType, expected: DType },
    Shape { name: String, actual: Vec<usize>, expected: Vec<usize> },
    Count { component: String, actual: usize, expected: usize },
    NotHalf { component: String, name: String, actual: DType },
    Roots { component: String, actual: Vec<(String, usize)>, expected: Vec<(String, usize)> },
}

/// What a [`WeightsError`] says, with texts and lists as sequences.
#[allow(inconsistent_fields)]
pub enum WeightsFault {
    Missing { name: Seq<char> },
    Type { name: Seq<char>, actual: DType, expected: DType },
    Shape { name: Seq<char>, actual: Seq<usize>, expected: Seq<usize> },
    Count { component: Seq<char>, actual: nat, expected: nat },
    NotHalf { component: Seq<char>, name: Seq<char>, actual: DType },
    Roots { component: Seq<char>, actual: Tree, expected: Tree },
}

/// What rows of a tree say.
pub open spec fn tree_of(rows: Seq<(String, usize)>) -> Tree {
    Seq::new(rows.len(), |i: int| (rows[i].0@, rows[i].1 as nat))
}

impl View for WeightsError {
    type V = WeightsFault;

    open spec fn view(&self) -> WeightsFault {
        match *self {
            WeightsError::Missing { name } => WeightsFault::Missing { name: name@ },
            WeightsError::Type { name, actual, expected } => WeightsFault::Type {
                name: name@,
                actual,
                expected,
            },
            WeightsError::Shape { name, actual, expected } => WeightsFault::Shape {
                name: name@,
                actual: actual@,
                expected: expected@,
            },
            WeightsError::Count { component, actual, expected } => WeightsFault::Count {
                component: component@,
                actual: actual as nat,
                expected: expected as nat,
            },
            WeightsError::NotHalf { component, name, actual } => WeightsFault::NotHalf {
                component: component@,
                name: name@,
                actual,
            },
            WeightsError::Roots { component, actual, expected } => WeightsFault::Roots {
                component: component@,
                actual: tree_of(actual@),
                expected: tree_of(expected@),
            },
        }
    }
}

/// How messages write an element type.
pub open spec fn dtype_text(dtype: DType) -> Seq<char> {
    match dtype {
        DType::F16 => "F16"@,
        DType::F32 => "F32"@,
        DType::BF16 => "BF16"@,
        DType::I64 => "I64"@,
    }
}

/// How messages write an element type.
pub fn dtype_name(dtype: DType) -> (name: &'static str)
    ensures
        name@ == dtype_text(dtype),
{
    match dtype {
        DType::F16 => "F16",
        DType::F32 => "F32",
        DType::BF16 => "BF16",
        DType::I64 => "I64",
    }
}

/// The rows of a tree, one after the other.
pub open spec fn tree_rows(tree: Tree) -> Seq<char>
    decreases tree.len(),
{
    if tree.len() == 0 {
        Seq::empty()
    } else {
        let row = text::debug_text(tree.last().0) + ": "@ + text::decimal(tree.last().1);
        if tree.len() == 1 {
            row
        } else {
            tree_rows(tree.drop_last()) + ", "@ + row
        }
    }
}

/// How messages write a tree.
pub open spec fn tree_text(tree: Tree) -> Seq<char> {
    "{"@ + tree_rows(tree) + "}"@
}

impl WeightsFault {
    /// The message for people.
    pub open spec fn text(self) -> Seq<char> {
        match self {
            WeightsFault::Missing { name } => "required tensor is missing: "@ + name,
            WeightsFault::Type { name, actual, expected } => "tensor "@ + name + " is "@
                + dtype_text(actual) + "; expected "@ + dtype_text(expected),
            WeightsFault::Shape { name, actual, expected } => "tensor "@ + name + " has shape "@
                + text::bracketed(actual) + "; expected "@ + text::bracketed(expected),
            WeightsFault::Count { component, actual, expected } => component + " has "@
                + text::decimal(actual) + " tensors; SD1.5 FP16 requires "@ + text::decimal(
                expected,
            ),
            WeightsFault::NotHalf { component, name, actual } => component + " tensor "@ + name
                + " is "@ + dtype_text(actual) + "; the mobile pack requires F16"@,
            WeightsFault::Roots { component, actual, expected } => component + " tensor tree is "@
                + tree_text(actual) + "; expected "@ + tree_text(expected),
        }
    }
}

/// Appends a tree.
fn push_tree(out: &mut String, rows: &Vec<(String, usize)>)
    ensures
        final(out)@ == old(out)@ + tree_text(tree_of(rows@)),
{
    out.append("{");
    let ghost before = out@;
    let ghost tree = tree_of(rows@);
    let mut i: usize = 0;
    while i < rows.len()
        invariant
            i <= rows@.len(),
            tree == tree_of(rows@),
            out@ == before + tree_rows(tree.take(i as int)),
        decreases rows.len() - i,
    {
        let ghost earlier = out@;
        proof {
            assert(tree.take(i + 1).drop_last() =~= tree.take(i as int));
            assert(tree.take(i + 1).last() == (rows@[i as int].0@, rows@[i as int].1 as nat));
        }
        if i > 0 {
            out.append(", ");
        }
        out.append(quote(rows[i].0.as_str()).as_str());
        out.append(": ");
        push_usize(out, rows[i].1);
        proof {
            let row = text::debug_text(rows@[i as int].0@) + ": "@ + text::decimal(
                rows@[i as int].1 as nat,
            );
            if i == 0 {
                assert(out@ =~= before + row);
            } else {
                assert(out@ =~= earlier + ", "@ + row);
                assert(out@ =~= before + (tree_rows(tree.take(i as int)) + ", "@ + row));
            }
        }
        i = i + 1;
    }
    proof {
        assert(tree.take(tree.len() as int) =~= tree);
    }
    out.append("}");
}

impl WeightsError {
    /// The message for people.
    pub fn message(&self) -> (message: String)
        ensures
            message@ == self@.text(),
    {
        let mut out = String::new();
        match self {
            WeightsError::Missing { name } => {
                out.append("required tensor is missing: ");
                out.append(name.as_str());
            },
            WeightsError::Type { name, actual, expected } => {
                out.append("tensor ");
                out.append(name.as_str());
                out.append(" is ");
                out.append(dtype_name(*actual));
                out.append("; expected ");
                out.append(dtype_name(*expected));
            },
            WeightsError::Shape { name, actual, expected } => {
                out.append("tensor ");
                out.append(name.as_str());
                out.append(" has shape ");
                push_bracketed(&mut out, actual);
                out.append("; expected ");
                push_bracketed(&mut out, expected);
            },
            WeightsError::Count { component, actual, expected } => {
                out.append(component.as_str());
                out.append(" has ");
                push_usize(&mut out, *actual);
                out.append(" tensors; SD1.5 FP16 requires ");
                push_usize(&mut out, *expected);
            },
            WeightsError::NotHalf { component, name, actual } => {
                out.append(component.as_str());
                out.append(" tensor ");
                out.append(name.as_str());
                out.append(" is ");
                out.append(dtype_name(*actual));
                out.append("; the mobile pack requires F16");
            },
            WeightsError::Roots { component, actual, expected } => {
                out.append(component.as_str());
                out.append(" tensor tree is ");
                push_tree(&mut out, actual);
                out.append("; expected ");
                push_tree(&mut out, expected);
            },
        }
        out
    }
}

/// Tensors with their names, as a weight file lists them.
pub type Listing = Seq<(Seq<char>, safetensors::TensorData)>;

/// The first fault of two.
pub open spec fn either<F>(first: Option<F>, second: Option<F>) -> Option<F> {
    match first {
        Some(fault) => Some(fault),
        None => second,
    }
}

/// What is wrong with a required tensor.
pub open spec fn tensor_fault(list: Listing, requirement: RequirementData) -> Option<WeightsFault> {
    match safetensors::lookup(list, requirement.name) {
        None => Some(WeightsFault::Missing { name: requirement.name }),
        Some(found) => if found.dtype != requirement.dtype {
            Some(
                WeightsFault::Type {
                    name: requirement.name,
                    actual: found.dtype,
                    expected: requirement.dtype,
                },
            )
        } else if found.shape != requirement.shape {
            Some(
                WeightsFault::Shape {
                    name: requirement.name,
                    actual: found.shape,
                    expected: requirement.shape,
                },
            )
        } else {
            None
        },
    }
}

/// What is wrong with the first required tensor that is not as required.
pub open spec fn tensors_fault(list: Listing, requirements: Seq<RequirementData>) -> Option<
    WeightsFault,
>
    decreases requirements.len(),
{
    if requirements.len() == 0 {
        None
    } else {
        either(
            tensors_fault(list, requirements.drop_last()),
            tensor_fault(list, requirements.last()),
        )
    }
}

/// What is wrong with the number of tensors.
pub open spec fn count_fault(list: Listing, component: Seq<char>, expected: nat) -> Option<
    WeightsFault,
> {
    if list.len() != expected {
        Some(WeightsFault::Count { component, actual: list.len(), expected })
    } else {
        None
    }
}

/// The first tensor that is not in half precision.
pub open spec fn half_fault(list: Listing, component: Seq<char>) -> Option<WeightsFault>
    decreases list.len(),
{
    if list.len() == 0 {
        None
    } else {
        either(
            half_fault(list.drop_last(), component),
            if list.last().1.dtype != DType::F16 {
                Some(
                    WeightsFault::NotHalf {
                        component,
                        name: list.last().0,
                        actual: list.last().1.dtype,
                    },
                )
            } else {
                None
            },
        )
    }
}

/// The part of a name before its first dot.
pub open spec fn root_of(name: Seq<char>) -> Seq<char> {
    name.take(fields::until(name, '.'))
}

/// A tree with a row for a root: its row is replaced, or put in by the order of the roots' bytes.
pub open spec fn entered(tree: Tree, root: Seq<char>, count: nat) -> Tree
    decreases tree.len(),
{
    if tree.len() == 0 {
        seq![(root, count)]
    } else if tree[0].0 == root {
        seq![(root, count)] + tree.skip(1)
    } else if precedes(root, tree[0].0) {
        seq![(root, count)] + tree
    } else {
        seq![tree[0]] + entered(tree.skip(1), root, count)
    }
}

/// A text comes before another in the order of their bytes.
pub open spec fn precedes(a: Seq<char>, b: Seq<char>) -> bool {
    json::comes_before(vstd::utf8::encode_utf8(a), vstd::utf8::encode_utf8(b))
}

/// How many names a tree counts for a root.
pub open spec fn counted(tree: Tree, root: Seq<char>) -> nat
    decreases tree.len(),
{
    if tree.len() == 0 {
        0
    } else if tree[0].0 == root {
        tree[0].1
    } else {
        counted(tree.skip(1), root)
    }
}

/// The roots of the names, in the order of their bytes, with the number of names of each.
pub open spec fn tallied(list: Listing) -> Tree
    decreases list.len(),
{
    if list.len() == 0 {
        Seq::empty()
    } else {
        let tree = tallied(list.drop_last());
        let root = root_of(list.last().0);
        entered(tree, root, counted(tree, root) + 1)
    }
}

/// Rows in the order of their roots' bytes; of a root that occurs again, the last row counts.
pub open spec fn arranged(rows: Tree) -> Tree
    decreases rows.len(),
{
    if rows.len() == 0 {
        Seq::empty()
    } else {
        entered(arranged(rows.drop_last()), rows.last().0, rows.last().1)
    }
}

/// What is wrong with the roots of the names.
pub open spec fn roots_fault(list: Listing, component: Seq<char>, expected: Tree) -> Option<
    WeightsFault,
> {
    if tallied(list) == arranged(expected) {
        None
    } else {
        Some(
            WeightsFault::Roots {
                component,
                actual: tallied(list),
                expected: arranged(expected),
            },
        )
    }
}

/// The result of a check is the fault, if there is one.
pub open spec fn reports(result: Result<(), WeightsError>, fault: Option<WeightsFault>) -> bool {
    match fault {
        Some(fault) => result is Err && result->Err_0@ == fault,
        None => result is Ok,
    }
}

/// Where tensors are as required, each has the type and the shape that its requirement gives.
pub proof fn accepted_weights_are_as_required(
    list: Listing,
    requirements: Seq<RequirementData>,
    i: int,
)
    requires
        tensors_fault(list, requirements) is None,
        0 <= i < requirements.len(),
    ensures
        safetensors::lookup(list, requirements[i].name) matches Some(found) && found.dtype
            == requirements[i].dtype && found.shape == requirements[i].shape,
    decreases requirements.len(),
{
    if i < requirements.len() - 1 {
        accepted_weights_are_as_required(list, requirements.drop_last(), i);
    }
}

/// Checks a required tensor.
pub fn require_tensor(file: &SafeTensorFile, requirement: &Requirement) -> (result: Result<
    (),
    WeightsError,
>)
    requires
        file.wf(),
    ensures
        reports(result, tensor_fault(file.tensors(), requirement@)),
{
    match file.info(requirement.name.as_str()) {
        None => Err(WeightsError::Missing { name: requirement.name.clone() }),
        Some(info) => {
            if info.dtype != requirement.dtype {
                return Err(
                    WeightsError::Type {
                        name: requirement.name.clone(),
                        actual: info.dtype,
                        expected: requirement.dtype,
                    },
                );
            }
            if !same_dims(&info.shape, &requirement.shape) {
                return Err(
                    WeightsError::Shape {
                        name: requirement.name.clone(),
                        actual: vstd::slice::slice_to_vec(&info.shape),
                        expected: vstd::slice::slice_to_vec(&requirement.shape),
                    },
                );
            }
            Ok(())
        },
    }
}

/// Checks required tensors, in order.
pub fn require_tensors(file: &SafeTensorFile, requirements: &Vec<Requirement>) -> (result: Result<
    (),
    WeightsError,
>)
    requires
        file.wf(),
    ensures
        reports(result, tensors_fault(file.tensors(), requirements_of(requirements@))),
{
    let ghost all = requirements_of(requirements@);
    let mut i: usize = 0;
    proof {
        assert(all.take(0) =~= Seq::empty());
    }
    while i < requirements.len()
        invariant
            file.wf(),
            i <= requirements@.len(),
            all == requirements_of(requirements@),
            tensors_fault(file.tensors(), all.take(i as int)) is None,
        decreases requirements.len() - i,
    {
        proof {
            assert(all.take(i + 1).drop_last() =~= all.take(i as int));
            assert(all.take(i + 1).last() == requirements@[i as int]@);
        }
        match require_tensor(file, &requirements[i]) {
            Ok(()) => {},
            Err(error) => {
                proof {
                    lemma_fault_prefix(file.tensors(), all, i + 1);
                }
                return Err(error);
            },
        }
        i = i + 1;
    }
    proof {
        assert(all.take(all.len() as int) =~= all);
    }
    Ok(())
}

proof fn lemma_fault_prefix(list: Listing, requirements: Seq<RequirementData>, n: int)
    requires
        0 <= n <= requirements.len(),
        tensors_fault(list, requirements.take(n)) is Some,
    ensures
        tensors_fault(list, requirements) == tensors_fault(list, requirements.take(n)),
    decreases requirements.len(),
{
    if n == requirements.len() {
        assert(requirements.take(n) =~= requirements);
    } else {
        assert(requirements.drop_last().take(n) =~= requirements.take(n));
        lemma_fault_prefix(list, requirements.drop_last(), n);
    }
}

/// Checks the number of tensors.
pub fn require_count(file: &SafeTensorFile, component: &str, expected: usize) -> (result: Result<
    (),
    WeightsError,
>)
    ensures
        reports(result, count_fault(file.tensors(), component@, expected as nat)),
{
    let actual: usize = file.tensor_count();
    if actual != expected {
        Err(WeightsError::Count { component: component.to_owned(), actual, expected })
    } else {
        Ok(())
    }
}

/// Checks that every tensor is in half precision.
pub fn require_all_f16(file: &SafeTensorFile, component: &str) -> (result: Result<
    (),
    WeightsError,
>)
    ensures
        reports(result, half_fault(file.tensors(), component@)),
{
    let ghost list = file.tensors();
    let count: usize = file.tensor_count();
    let mut i: usize = 0;
    proof {
        assert(list.take(0) =~= Seq::empty());
    }
    while i < count
        invariant
            i <= count == list.len(),
            list == file.tensors(),
            half_fault(list.take(i as int), component@) is None,
        decreases count - i,
    {
        proof {
            assert(list.take(i + 1).drop_last() =~= list.take(i as int));
            assert(list.take(i + 1).last() == list[i as int]);
        }
        let (name, info) = file.tensor_at(i);
        if info.dtype != DType::F16 {
            proof {
                lemma_half_prefix(list, component@, i + 1);
            }
            return Err(
                WeightsError::NotHalf {
                    component: component.to_owned(),
                    name: name.to_owned(),
                    actual: info.dtype,
                },
            );
        }
        i = i + 1;
    }
    proof {
        assert(list.take(list.len() as int) =~= list);
    }
    Ok(())
}

proof fn lemma_half_prefix(list: Listing, component: Seq<char>, n: int)
    requires
        0 <= n <= list.len(),
        half_fault(list.take(n), component) is Some,
    ensures
        half_fault(list, component) == half_fault(list.take(n), component),
    decreases list.len(),
{
    if n == list.len() {
        assert(list.take(n) =~= list);
    } else {
        assert(list.drop_last().take(n) =~= list.take(n));
        lemma_half_prefix(list.drop_last(), component, n);
    }
}

/// The part of a name before its first dot.
fn name_root(name: &str) -> (root: String)
    ensures
        root@ == root_of(name@),
{
    let chars = chars_of(name);
    let mut end: usize = 0;
    proof {
        assert(name@.skip(0) =~= name@);
    }
    while end < chars.len() && chars[end] != '.'
        invariant
            chars@ == name@,
            end <= chars@.len(),
            fields::until(name@, '.') == end + fields::until(name@.skip(end as int), '.'),
        decreases chars.len() - end,
    {
        proof {
            assert(name@.skip(end as int).skip(1) =~= name@.skip(end + 1));
            assert(name@.skip(end as int)[0] == name@[end as int]);
        }
        end = end + 1;
    }
    proof {
        if end < chars@.len() {
            assert(name@.skip(end as int)[0] == '.');
        }
        assert(name@.subrange(0, end as int) =~= name@.take(end as int));
    }
    string_of(&chars, 0, end)
}

/// Where a row for a root is put in.
proof fn lemma_entered(tree: Tree, root: Seq<char>, count: nat, i: int)
    requires
        0 <= i <= tree.len(),
        forall|j: int|
            0 <= j < i ==> (#[trigger] tree[j]).0 != root && !precedes(root, tree[j].0),
        i < tree.len() ==> tree[i].0 == root || precedes(root, tree[i].0),
    ensures
        i < tree.len() && tree[i].0 == root ==> entered(tree, root, count) == tree.update(
            i,
            (root, count),
        ),
        i == tree.len() || tree[i].0 != root ==> entered(tree, root, count) == tree.insert(
            i,
            (root, count),
        ),
    decreases tree.len(),
{
    if i == 0 {
        if tree.len() > 0 && tree[0].0 == root {
            assert(entered(tree, root, count) =~= tree.update(0, (root, count)));
        } else {
            assert(entered(tree, root, count) =~= tree.insert(0, (root, count)));
        }
    } else {
        assert(tree[0].0 != root && !precedes(root, tree[0].0));
        let rest = tree.skip(1);
        assert forall|j: int| 0 <= j < i - 1 implies (#[trigger] rest[j]).0 != root && !precedes(
            root,
            rest[j].0,
        ) by {
            assert(tree[j + 1].0 != root);
        }
        lemma_entered(rest, root, count, i - 1);
        if i < tree.len() && tree[i].0 == root {
            assert(entered(tree, root, count) =~= tree.update(i, (root, count)));
        } else {
            assert(entered(tree, root, count) =~= tree.insert(i, (root, count)));
        }
    }
}

/// Where a root stands, its row tells the count.
proof fn lemma_counted(tree: Tree, root: Seq<char>, i: int)
    requires
        0 <= i <= tree.len(),
        forall|j: int| 0 <= j < i ==> (#[trigger] tree[j]).0 != root,
        i < tree.len() ==> tree[i].0 == root,
    ensures
        counted(tree, root) == if i < tree.len() {
            tree[i].1
        } else {
            0
        },
    decreases tree.len(),
{
    if i > 0 {
        assert(tree[0].0 != root);
        let rest = tree.skip(1);
        assert forall|j: int| 0 <= j < i - 1 implies (#[trigger] rest[j]).0 != root by {
            assert(tree[j + 1].0 != root);
        }
        lemma_counted(rest, root, i - 1);
    }
}

/// Whether a text comes before another in the order of their bytes.
fn text_precedes(a: &str, b: &str) -> (before: bool)
    ensures
        before == precedes(a@, b@),
{
    let left = a.as_bytes();
    let right = b.as_bytes();
    let mut i: usize = 0;
    proof {
        assert(left@.skip(0) =~= left@);
        assert(right@.skip(0) =~= right@);
    }
    while i < left.len() && i < right.len() && left[i] == right[i]
        invariant
            i <= left@.len(),
            i <= right@.len(),
            json::comes_before(left@, right@) == json::comes_before(
                left@.skip(i as int),
                right@.skip(i as int),
            ),
        decreases left.len() - i,
    {
        proof {
            assert(left@.skip(i as int).skip(1) =~= left@.skip(i + 1));
            assert(right@.skip(i as int).skip(1) =~= right@.skip(i + 1));
        }
        i = i + 1;
    }
    i < right.len() && (i >= left.len() || left[i] < right[i])
}

/// Puts a row for a root into a tree.
fn enter(rows: &mut Vec<(String, usize)>, root: String, count: usize)
    ensures
        tree_of(final(rows)@) == entered(tree_of(old(rows)@), root@, count as nat),
{
    let ghost tree = tree_of(rows@);
    let ghost name = root@;
    let mut j: usize = 0;
    while j < rows.len() && !same_text(rows[j].0.as_str(), root.as_str()) && !text_precedes(
        root.as_str(),
        rows[j].0.as_str(),
    )
        invariant
            j <= rows@.len(),
            tree == tree_of(rows@),
            name == root@,
            forall|k: int|
                0 <= k < j ==> (#[trigger] tree[k]).0 != name && !precedes(name, tree[k].0),
        decreases rows.len() - j,
    {
        proof {
            assert(tree[j as int].0 == rows@[j as int].0@);
        }
        j = j + 1;
    }
    proof {
        if j < rows@.len() {
            assert(tree[j as int] == (rows@[j as int].0@, rows@[j as int].1 as nat));
        }
        lemma_entered(tree, name, count as nat, j as int);
    }
    if j < rows.len() && same_text(rows[j].0.as_str(), root.as_str()) {
        rows[j] = (root, count);
        proof {
            assert(tree_of(rows@) =~= tree.update(j as int, (name, count as nat)));
        }
    } else {
        rows.insert(j, (root, count));
        proof {
            assert(tree_of(rows@) =~= tree.insert(j as int, (name, count as nat)));
        }
    }
}

/// How many names a tree counts for a root.
fn count_of(rows: &Vec<(String, usize)>, root: &str) -> (count: usize)
    ensures
        count == counted(tree_of(rows@), root@),
{
    let ghost tree = tree_of(rows@);
    let mut j: usize = 0;
    while j < rows.len() && !same_text(rows[j].0.as_str(), root)
        invariant
            j <= rows@.len(),
            tree == tree_of(rows@),
            forall|k: int| 0 <= k < j ==> (#[trigger] tree[k]).0 != root@,
        decreases rows.len() - j,
    {
        proof {
            assert(tree[j as int].0 == rows@[j as int].0@);
        }
        j = j + 1;
    }
    proof {
        if j < rows@.len() {
            assert(tree[j as int] == (rows@[j as int].0@, rows@[j as int].1 as nat));
        }
        lemma_counted(tree, root@, j as int);
    }
    if j < rows.len() {
        rows[j].1
    } else {
        0
    }
}

/// No root is counted more often than there are names.
proof fn lemma_counts_bounded(list: Listing, root: Seq<char>)
    ensures
        counted(tallied(list), root) <= list.len(),
    decreases list.len(),
{
    if list.len() > 0 {
        let tree = tallied(list.drop_last());
        let own = root_of(list.last().0);
        lemma_counts_bounded(list.drop_last(), root);
        lemma_counts_bounded(list.drop_last(), own);
        lemma_counted_entered(tree, own, counted(tree, own) + 1, root);
    }
}

/// What a tree counts once a row was put in is the row's count, or what it counted before.
proof fn lemma_counted_entered(tree: Tree, root: Seq<char>, count: nat, other: Seq<char>)
    ensures
        counted(entered(tree, root, count), other) == count || counted(
            entered(tree, root, count),
            other,
        ) == counted(tree, other),
    decreases tree.len(),
{
    let after = entered(tree, root, count);
    if tree.len() == 0 {
        assert(after.skip(1) =~= tree);
    } else if tree[0].0 == root {
        assert(after.skip(1) =~= tree.skip(1));
    } else if precedes(root, tree[0].0) {
        assert(after.skip(1) =~= tree);
    } else {
        assert(after.skip(1) =~= entered(tree.skip(1), root, count));
        lemma_counted_entered(tree.skip(1), root, count, other);
    }
}

/// The roots of the names, with the number of names of each.
fn tally(file: &SafeTensorFile) -> (rows: Vec<(String, usize)>)
    ensures
        tree_of(rows@) == tallied(file.tensors()),
{
    let ghost list = file.tensors();
    let count: usize = file.tensor_count();
    let mut rows: Vec<(String, usize)> = Vec::new();
    let mut i: usize = 0;
    proof {
        assert(list.take(0) =~= Seq::empty());
        assert(tree_of(rows@) =~= Seq::empty());
    }
    while i < count
        invariant
            i <= count == list.len(),
            list == file.tensors(),
            tree_of(rows@) == tallied(list.take(i as int)),
        decreases count - i,
    {
        proof {
            assert(list.take(i + 1).drop_last() =~= list.take(i as int));
            assert(list.take(i + 1).last() == list[i as int]);
        }
        let root = name_root(file.tensor_at(i).0);
        proof {
            lemma_counts_bounded(list.take(i as int), root@);
        }
        let before: usize = count_of(&rows, root.as_str());
        enter(&mut rows, root, before + 1);
        i = i + 1;
    }
    proof {
        assert(list.take(list.len() as int) =~= list);
    }
    rows
}

/// Rows in the order of their roots' bytes.
fn arrange(expected: &Vec<(String, usize)>) -> (rows: Vec<(String, usize)>)
    ensures
        tree_of(rows@) == arranged(tree_of(expected@)),
{
    let ghost all = tree_of(expected@);
    let mut rows: Vec<(String, usize)> = Vec::new();
    let mut i: usize = 0;
    proof {
        assert(all.take(0) =~= Seq::empty());
        assert(tree_of(rows@) =~= Seq::empty());
    }
    while i < expected.len()
        invariant
            i <= expected@.len(),
            all == tree_of(expected@),
            tree_of(rows@) == arranged(all.take(i as int)),
        decreases expected.len() - i,
    {
        proof {
            assert(all.take(i + 1).drop_last() =~= all.take(i as int));
            assert(all.take(i + 1).last() == (expected@[i as int].0@, expected@[i as int].1 as nat));
        }
        enter(&mut rows, expected[i].0.clone(), expected[i].1);
        i = i + 1;
    }
    proof {
        assert(all.take(all.len() as int) =~= all);
    }
    rows
}

/// Whether two trees are the same.
fn same_rows(a: &Vec<(String, usize)>, b: &Vec<(String, usize)>) -> (same: bool)
    ensures
        same == (tree_of(a@) == tree_of(b@)),
{
    let ghost left = tree_of(a@);
    let ghost right = tree_of(b@);
    if a.len() != b.len() {
        assert(left.len() != right.len());
        return false;
    }
    let mut i: usize = 0;
    while i < a.len()
        invariant
            i <= a@.len() == b@.len(),
            left == tree_of(a@),
            right == tree_of(b@),
            forall|j: int| 0 <= j < i ==> left[j] == #[trigger] right[j],
        decreases a.len() - i,
    {
        proof {
            assert(left[i as int] == (a@[i as int].0@, a@[i as int].1 as nat));
            assert(right[i as int] == (b@[i as int].0@, b@[i as int].1 as nat));
        }
        if a[i].1 != b[i].1 || !same_text(a[i].0.as_str(), b[i].0.as_str()) {
            return false;
        }
        i = i + 1;
    }
    assert(left =~= right);
    true
}

/// Checks the roots of the names.
pub fn require_root_counts(
    file: &SafeTensorFile,
    component: &str,
    expected: Vec<(String, usize)>,
) -> (result: Result<(), WeightsError>)
    ensures
        reports(result, roots_fault(file.tensors(), component@, tree_of(expected@))),
{
    let actual = tally(file);
    let expected = arrange(&expected);
    if same_rows(&actual, &expected) {
        Ok(())
    } else {
        Err(WeightsError::Roots { component: component.to_owned(), actual, expected })
    }
}

} // verus!
