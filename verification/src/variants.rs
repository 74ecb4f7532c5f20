//! Expansion of a set of variables into the variants of a prompt: the
//! cartesian product of the candidate values, in odometer order.

use crate::text::chars_of;
use itertools::Itertools;
use vstd::prelude::*;

verus! {

/// The product of the given sizes; 1 for no sizes at all.
pub open spec fn size_product(sizes: Seq<nat>) -> nat
    decreases sizes.len(),
{
    if sizes.len() == 0 {
        1
    } else {
        sizes[0] * size_product(sizes.skip(1))
    }
}

/// The length of each list.
pub open spec fn sizes_of<A>(lists: Seq<Seq<A>>) -> Seq<nat> {
    Seq::new(lists.len(), |i: int| lists[i].len())
}

/// The cartesian product of the lists: every way to pick one item from each
/// list, as a sequence with the pick from the first list first.
///
/// The picks are enumerated like the readings of an odometer: the pick from
/// the first list changes slowest, the pick from the last list fastest. No
/// lists at all give the one empty pick.
pub open spec fn product<A>(lists: Seq<Seq<A>>) -> Seq<Seq<A>>
    decreases lists.len(),
{
    if lists.len() == 0 {
        seq![Seq::empty()]
    } else {
        let rest = product(lists.skip(1));
        Seq::new(
            lists[0].len() * rest.len(),
            |k: int| seq![lists[0][k / (rest.len() as int)]] + rest[k % (rest.len() as int)],
        )
    }
}

/// The product of the lists has as many entries as the product of their
/// lengths says.
pub proof fn lemma_product_len<A>(lists: Seq<Seq<A>>)
    ensures
        product(lists).len() == size_product(sizes_of(lists)),
    decreases lists.len(),
{
    if lists.len() > 0 {
        lemma_product_len(lists.skip(1));
        assert(sizes_of(lists).skip(1) =~= sizes_of(lists.skip(1)));
    }
}

/// Each entry of the product picks one item from each list, in the order of
/// the lists.
pub proof fn lemma_product_picks<A>(lists: Seq<Seq<A>>, k: int)
    requires
        0 <= k < product(lists).len(),
    ensures
        product(lists)[k].len() == lists.len(),
        forall|i: int| 0 <= i < lists.len() ==> lists[i].contains(#[trigger] product(lists)[k][i]),
    decreases lists.len(),
{
    if lists.len() > 0 {
        let rest = product(lists.skip(1));
        let width = rest.len() as int;
        assert(width > 0) by (nonlinear_arith)
            requires
                0 <= k < lists[0].len() * width,
                width >= 0,
        ;
        let head = k / width;
        let tail = k % width;
        assert(0 <= head < lists[0].len()) by (nonlinear_arith)
            requires
                0 <= k < lists[0].len() * width,
                width > 0,
                head == k / width,
        ;
        lemma_product_picks(lists.skip(1), tail);
    }
}

/// A size of zero anywhere makes the product of the sizes zero.
pub proof fn lemma_size_product_zero(sizes: Seq<nat>, i: int)
    requires
        0 <= i < sizes.len(),
        sizes[i] == 0,
    ensures
        size_product(sizes) == 0,
    decreases sizes.len(),
{
    if i > 0 {
        lemma_size_product_zero(sizes.skip(1), i - 1);
        assert(sizes[0] * 0 == 0) by (nonlinear_arith);
    }
}

/// Whether the name `a` comes before the name `b`: at the first position where
/// the two differ `a` has the character with the smaller code, or `a` ends
/// there and `b` goes on.
pub open spec fn name_before(a: Seq<char>, b: Seq<char>) -> bool
    decreases a.len(),
{
    if b.len() == 0 {
        false
    } else if a.len() == 0 {
        true
    } else if a[0] == b[0] {
        name_before(a.skip(1), b.skip(1))
    } else {
        (a[0] as int) < (b[0] as int)
    }
}

/// Of two different names one comes before the other.
pub proof fn lemma_name_order_total(a: Seq<char>, b: Seq<char>)
    requires
        a != b,
    ensures
        name_before(a, b) || name_before(b, a),
    decreases a.len(),
{
    if a.len() > 0 && b.len() > 0 {
        if a[0] == b[0] {
            if a.skip(1) == b.skip(1) {
                assert(a =~= seq![a[0]] + a.skip(1));
                assert(b =~= seq![b[0]] + b.skip(1));
            }
            lemma_name_order_total(a.skip(1), b.skip(1));
        }
    } else if a.len() == 0 && b.len() == 0 {
        assert(a =~= b);
    }
}

/// The order of names is transitive.
pub proof fn lemma_name_order_transitive(a: Seq<char>, b: Seq<char>, c: Seq<char>)
    requires
        name_before(a, b),
        name_before(b, c),
    ensures
        name_before(a, c),
    decreases a.len(),
{
    if a.len() > 0 && a[0] == b[0] && b[0] == c[0] {
        lemma_name_order_transitive(a.skip(1), b.skip(1), c.skip(1));
    }
}

/// No name comes before itself.
pub proof fn lemma_name_order_irreflexive(a: Seq<char>)
    ensures
        !name_before(a, a),
    decreases a.len(),
{
    if a.len() > 0 {
        lemma_name_order_irreflexive(a.skip(1));
    }
}

/// Whether the variables stand in the order of their names. No name occurs
/// twice then.
pub open spec fn names_ascend(variables: Seq<(Seq<char>, Seq<Seq<char>>)>) -> bool {
    forall|i: int, j: int|
        0 <= i < j < variables.len() ==> name_before(
            (#[trigger] variables[i]).0,
            (#[trigger] variables[j]).0,
        )
}

/// Compares two names.
fn comes_before(a: &str, b: &str) -> (before: bool)
    ensures
        before == name_before(a@, b@),
{
    let x = chars_of(a);
    let y = chars_of(b);
    let mut i: usize = 0;
    proof {
        assert(x@.skip(0) =~= x@);
        assert(y@.skip(0) =~= y@);
    }
    while i < x.len() && i < y.len()
        invariant
            i <= x.len(),
            i <= y.len(),
            x@ == a@,
            y@ == b@,
            name_before(x@.skip(i as int), y@.skip(i as int)) == name_before(x@, y@),
        decreases x.len() - i,
    {
        proof {
            assert(x@.skip(i as int).skip(1) =~= x@.skip(i + 1));
            assert(y@.skip(i as int).skip(1) =~= y@.skip(i + 1));
        }
        if x[i] != y[i] {
            return x[i] < y[i];
        }
        i += 1;
    }
    i < y.len()
}

/// A variable of the templates: the marker that stands for it in the text,
/// and the candidate values that take the marker's place.
pub struct Variable {
    pub name: String,
    pub values: Vec<String>,
}

impl View for Variable {
    type V = (Seq<char>, Seq<Seq<char>>);

    open spec fn view(&self) -> (Seq<char>, Seq<Seq<char>>) {
        (self.name@, self.values.deep_view())
    }
}

/// The variables of one run, each name once, in the order of their names.
pub struct VariableSet {
    entries: Vec<Variable>,
}

impl View for VariableSet {
    type V = Seq<(Seq<char>, Seq<Seq<char>>)>;

    closed spec fn view(&self) -> Seq<(Seq<char>, Seq<Seq<char>>)> {
        Seq::new(self.entries@.len(), |i: int| self.entries@[i]@)
    }
}

/// For each variable the list of its substitutions: the variable's name paired
/// with each of its candidate values, in the order of the values.
pub open spec fn choices(variables: Seq<(Seq<char>, Seq<Seq<char>>)>) -> Seq<
    Seq<(Seq<char>, Seq<char>)>,
> {
    Seq::new(
        variables.len(),
        |i: int| Seq::new(variables[i].1.len(), |j: int| (variables[i].0, variables[i].1[j])),
    )
}

/// The number of candidate values of each variable.
pub open spec fn value_counts(variables: Seq<(Seq<char>, Seq<Seq<char>>)>) -> Seq<nat> {
    Seq::new(variables.len(), |i: int| variables[i].1.len())
}

/// The variables expand to as many variants as the product of their numbers of
/// candidate values says.
pub proof fn lemma_variant_count(variables: Seq<(Seq<char>, Seq<Seq<char>>)>)
    ensures
        product(choices(variables)).len() == size_product(value_counts(variables)),
{
    lemma_product_len(choices(variables));
    assert(sizes_of(choices(variables)) =~= value_counts(variables));
}

/// No variables expand to exactly one variant, the empty one.
pub proof fn lemma_no_variables_one_variant(variables: Seq<(Seq<char>, Seq<Seq<char>>)>)
    requires
        variables.len() == 0,
    ensures
        product(choices(variables)) == seq![Seq::<(Seq<char>, Seq<char>)>::empty()],
{
}

/// A variable without candidate values leaves no variant at all.
pub proof fn lemma_empty_variable_no_variants(
    variables: Seq<(Seq<char>, Seq<Seq<char>>)>,
    i: int,
)
    requires
        0 <= i < variables.len(),
        variables[i].1.len() == 0,
    ensures
        product(choices(variables)).len() == 0,
{
    lemma_variant_count(variables);
    lemma_size_product_zero(value_counts(variables), i);
}

/// Each variant gives every variable one of its candidate values: it has one
/// pair for each variable, in the order of the variables, and the pair at a
/// variable's place holds the variable's name and one of its values.
pub proof fn lemma_variant_shape(variables: Seq<(Seq<char>, Seq<Seq<char>>)>, k: int)
    requires
        0 <= k < product(choices(variables)).len(),
    ensures
        product(choices(variables))[k].len() == variables.len(),
        forall|i: int|
            0 <= i < variables.len() ==> {
                let pair = #[trigger] product(choices(variables))[k][i];
                pair.0 == variables[i].0 && variables[i].1.contains(pair.1)
            },
{
    let lists = choices(variables);
    lemma_product_picks(lists, k);
    assert forall|i: int| 0 <= i < variables.len() implies ({
        let pair = #[trigger] product(lists)[k][i];
        pair.0 == variables[i].0 && variables[i].1.contains(pair.1)
    }) by {
        let pair = product(lists)[k][i];
        let j = choose|j: int| 0 <= j < lists[i].len() && lists[i][j] == pair;
        assert(variables[i].1[j] == pair.1);
    }
}

/// Calls `Itertools::multi_cartesian_product` on the lists and collects what it
/// yields. The claim is that the adaptor yields the cartesian product of the
/// lists with the last list varying fastest, one empty vector for no lists,
/// and nothing when a list is empty.
#[verifier::external_body]
fn multi_cartesian_product(lists: &Vec<Vec<(String, String)>>) -> (out: Vec<
    Vec<(String, String)>,
>)
    requires
        size_product(sizes_of(lists.deep_view())) <= usize::MAX,
    ensures
        out.deep_view() == product(lists.deep_view()),
{
    lists.iter().map(|list| list.iter().cloned()).multi_cartesian_product().collect()
}

impl VariableSet {
    /// The set without variables.
    pub fn new() -> (set: VariableSet)
        ensures
            set@ == Seq::<(Seq<char>, Seq<Seq<char>>)>::empty(),
    {
        let set = VariableSet { entries: Vec::new() };
        set
    }

    /// The number of variables.
    pub fn len(&self) -> (n: usize)
        ensures
            n == self@.len(),
    {
        self.entries.len()
    }

    /// The variable at position `index` in the order of the names, if there
    /// is one.
    pub fn get(&self, index: usize) -> (variable: Option<&Variable>)
        ensures
            match variable {
                Some(v) => index < self@.len() && v@ == self@[index as int],
                None => index >= self@.len(),
            },
    {
        if index < self.entries.len() {
            Some(&self.entries[index])
        } else {
            None
        }
    }

    /// Whether the set is in order: each name once, in the order of the names.
    pub open spec fn wf(&self) -> bool {
        names_ascend(self@)
    }

    /// The number of variables whose names come before `name`.
    fn rank(&self, name: &str) -> (at: usize)
        ensures
            at <= self@.len(),
            forall|k: int| 0 <= k < at ==> name_before((#[trigger] self@[k]).0, name@),
            at < self@.len() ==> !name_before(self@[at as int].0, name@),
    {
        let mut at: usize = 0;
        while at < self.entries.len()
            invariant
                at <= self.entries.len(),
                forall|k: int| 0 <= k < at ==> name_before((#[trigger] self@[k]).0, name@),
            decreases self.entries.len() - at,
        {
            if !comes_before(self.entries[at].name.as_str(), name) {
                return at;
            }
            at += 1;
        }
        at
    }

    /// Gives the variable `name` the candidate values `values`. Where the set
    /// held the name already, the new values take the place of the old ones,
    /// which are returned; otherwise the variable enters the set at the place
    /// that the order of names gives it.
    pub fn insert(&mut self, name: String, values: Vec<String>) -> (previous: Option<Vec<String>>)
        requires
            old(self).wf(),
        ensures
            final(self).wf(),
            match previous {
                Some(replaced) => exists|i: int|
                    0 <= i < old(self)@.len() && old(self)@[i] == (name@, replaced.deep_view())
                        && final(self)@ == #[trigger] old(self)@.update(
                        i,
                        (name@, values.deep_view()),
                    ),
                None => {
                    &&& forall|i: int|
                        0 <= i < old(self)@.len() ==> (#[trigger] old(self)@[i]).0 != name@
                    &&& exists|i: int|
                        0 <= i <= old(self)@.len() && final(self)@ == #[trigger] old(self)@.insert(
                            i,
                            (name@, values.deep_view()),
                        )
                },
            },
    {
        let at = self.rank(name.as_str());
        let ghost before = self@;
        let ghost entry = (name@, values.deep_view());
        if at < self.entries.len() && self.entries[at].name == name {
            let replaced = self.entries.remove(at);
            self.entries.insert(at, Variable { name, values });
            proof {
                assert(self@ =~= before.update(at as int, entry));
            }
            Some(replaced.values)
        } else {
            self.entries.insert(at, Variable { name, values });
            proof {
                assert(self@ =~= before.insert(at as int, entry));
                assert forall|i: int| 0 <= i < before.len() implies (#[trigger] before[i]).0
                    != entry.0 by {
                    lemma_name_order_irreflexive(entry.0);
                }
                assert forall|i: int, j: int| 0 <= i < j < self@.len() implies name_before(
                    (#[trigger] self@[i]).0,
                    (#[trigger] self@[j]).0,
                ) by {
                    if i == at && j > at {
                        lemma_name_order_total(before[at as int].0, entry.0);
                        if j - 1 > at {
                            lemma_name_order_transitive(
                                entry.0,
                                before[at as int].0,
                                before[j - 1].0,
                            );
                        }
                    }
                }
            }
            None
        }
    }
}

/// The substitutions of one variable: its name with each of its values.
fn substitutions(variable: &Variable) -> (list: Vec<(String, String)>)
    ensures
        list.deep_view() == Seq::new(
            variable@.1.len(),
            |j: int| (variable@.0, variable@.1[j]),
        ),
{
    let mut list: Vec<(String, String)> = Vec::new();
    let mut j: usize = 0;
    while j < variable.values.len()
        invariant
            j <= variable.values.len(),
            list.len() == j,
            forall|k: int|
                0 <= k < j ==> #[trigger] list@[k].deep_view() == (
                    variable.name@,
                    variable.values@[k]@,
                ),
        decreases variable.values.len() - j,
    {
        list.push((variable.name.clone(), variable.values[j].clone()));
        j += 1;
    }
    list
}

/// The number of variants that the variables expand to, or `None` when that
/// number does not fit the machine's word.
pub fn variant_count(variables: &VariableSet) -> (count: Option<usize>)
    ensures
        match count {
            Some(n) => n == size_product(value_counts(variables@)),
            None => size_product(value_counts(variables@)) > usize::MAX,
        },
{
    let ghost sizes = value_counts(variables@);
    let mut i: usize = 0;
    while i < variables.entries.len()
        invariant
            i <= variables.entries.len(),
            sizes == value_counts(variables@),
            forall|k: int| 0 <= k < i ==> sizes[k] > 0,
        decreases variables.entries.len() - i,
    {
        if variables.entries[i].values.len() == 0 {
            proof {
                lemma_size_product_zero(sizes, i as int);
            }
            return Some(0);
        }
        i += 1;
    }
    let mut acc: usize = 1;
    let mut i: usize = variables.entries.len();
    while i > 0
        invariant
            i <= variables.entries.len(),
            sizes == value_counts(variables@),
            sizes.len() == variables.entries.len(),
            forall|k: int| 0 <= k < sizes.len() ==> sizes[k] > 0,
            acc == size_product(sizes.skip(i as int)),
        decreases i,
    {
        i -= 1;
        proof {
            assert(sizes.skip(i as int).skip(1) =~= sizes.skip(i + 1));
        }
        match variables.entries[i].values.len().checked_mul(acc) {
            Some(next) => {
                acc = next;
            },
            None => {
                proof {
                    lemma_size_product_grows(sizes, i as int);
                }
                return None;
            },
        }
    }
    assert(sizes.skip(0) =~= sizes);
    Some(acc)
}

/// Expands the variables into their variants: every way to give each variable
/// one of its candidate values. A variant lists, in the order of the
/// variables, each variable's name with the value chosen for it. The variants
/// come in odometer order, the first variable changing slowest.
pub fn make_variants(variables: &VariableSet) -> (variants: Vec<Vec<(String, String)>>)
    requires
        size_product(value_counts(variables@)) <= usize::MAX,
    ensures
        variants.deep_view() == product(choices(variables@)),
{
    let mut lists: Vec<Vec<(String, String)>> = Vec::new();
    let mut i: usize = 0;
    while i < variables.entries.len()
        invariant
            i <= variables.entries.len(),
            lists.len() == i,
            forall|k: int| 0 <= k < i ==> #[trigger] lists@[k].deep_view() == choices(variables@)[k],
        decreases variables.entries.len() - i,
    {
        let list = substitutions(&variables.entries[i]);
        lists.push(list);
        i += 1;
    }
    proof {
        assert(lists.deep_view() =~= choices(variables@));
        assert(sizes_of(choices(variables@)) =~= value_counts(variables@));
    }
    multi_cartesian_product(&lists)
}

/// Where no size is zero, the product of the sizes is at least the product of
/// any of their tails.
proof fn lemma_size_product_grows(sizes: Seq<nat>, i: int)
    requires
        0 <= i <= sizes.len(),
        forall|k: int| 0 <= k < sizes.len() ==> sizes[k] > 0,
    ensures
        size_product(sizes) >= size_product(sizes.skip(i)),
    decreases i,
{
    if i == 0 {
        assert(sizes.skip(0) =~= sizes);
    } else {
        lemma_size_product_grows(sizes.skip(1), i - 1);
        assert(sizes.skip(1).skip(i - 1) =~= sizes.skip(i));
        let tail = size_product(sizes.skip(1));
        assert(sizes[0] * tail >= tail) by (nonlinear_arith)
            requires
                sizes[0] > 0,
                tail >= 0,
        ;
    }
}

} // verus!
