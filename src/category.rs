//! Grouping parsed defines by the prefix of their names into categories of
//! constants.
use vstd::prelude::*;

use crate::grammar::is_digit;
use crate::parse::{models, Define, DefineModel, ExprModel, Expression};
use crate::text::{push_char, string_of, to_chars};

verus! {

/// One constant of a category.
#[derive(Debug, PartialEq, Eq)]
pub struct Constant {
    /// The part of the define's name after the category prefix, made a valid
    /// identifier.
    pub name: String,
    /// The define's name as written.
    pub alias_name: String,
    pub value: u32,
    /// The define's comment, as it was attached to the define.
    pub comment: Option<String>,
}

/// The constants that share a prefix, in the order of their defines.
#[derive(Debug, PartialEq, Eq)]
pub struct Category {
    pub constants: Vec<Constant>,
}

/// Why a list of defines could not be grouped into categories.
#[derive(Debug, Clone, Copy, PartialEq, Eq, Structural)]
pub enum CategoryError {
    /// A define's name has no `_` to split it at.
    InvalidDefineName,
    /// A define's value refers to another define, which is not resolved.
    UnexpectedDeferredExpression,
}

pub struct ConstantModel {
    pub name: Seq<char>,
    pub alias_name: Seq<char>,
    pub value: u32,
    pub comment: Option<Seq<char>>,
}

impl View for Constant {
    type V = ConstantModel;

    open spec fn view(&self) -> ConstantModel {
        ConstantModel {
            name: self.name@,
            alias_name: self.alias_name@,
            value: self.value,
            comment: match self.comment {
                Some(c) => Some(c@),
                None => None,
            },
        }
    }
}

impl View for Category {
    type V = Seq<ConstantModel>;

    open spec fn view(&self) -> Seq<ConstantModel> {
        self.constants@.map_values(|c: Constant| c@)
    }
}

/// The position of the first `_` in `name` at or after `i`.
pub open spec fn separator_from(name: Seq<char>, i: int) -> Option<int>
    decreases name.len() - i,
{
    if i < 0 || i >= name.len() {
        None
    } else if name[i] == '_' {
        Some(i)
    } else {
        separator_from(name, i + 1)
    }
}

/// `suffix`, with a `_` put in front where it starts with a digit.
pub open spec fn sanitize(suffix: Seq<char>) -> Seq<char> {
    if suffix.len() > 0 && is_digit(suffix[0]) {
        seq!['_'] + suffix
    } else {
        suffix
    }
}

/// The category prefix of a define and the constant it becomes.
pub open spec fn constant_of(d: DefineModel) -> Result<(Seq<char>, ConstantModel), CategoryError> {
    match separator_from(d.name, 0) {
        None => Err(CategoryError::InvalidDefineName),
        Some(k) => match d.expression {
            ExprModel::Constant(v) => Ok(
                (
                    d.name.subrange(0, k),
                    ConstantModel {
                        name: sanitize(d.name.subrange(k + 1, d.name.len() as int)),
                        alias_name: d.name,
                        value: v,
                        comment: d.comment,
                    },
                ),
            ),
            ExprModel::Deferred { .. } => Err(CategoryError::UnexpectedDeferredExpression),
        },
    }
}

/// The index of the category with prefix `p`, searching from `i`.
pub open spec fn category_index(cats: Seq<(Seq<char>, Seq<ConstantModel>)>, p: Seq<char>, i: int) -> Option<int>
    decreases cats.len() - i,
{
    if i < 0 || i >= cats.len() {
        None
    } else if cats[i].0 == p {
        Some(i)
    } else {
        category_index(cats, p, i + 1)
    }
}

/// Appends `c` to the category with prefix `p`, which is added at the end
/// where there is none yet.
pub open spec fn add_constant(
    cats: Seq<(Seq<char>, Seq<ConstantModel>)>,
    p: Seq<char>,
    c: ConstantModel,
) -> Seq<(Seq<char>, Seq<ConstantModel>)> {
    match category_index(cats, p, 0) {
        Some(k) => cats.update(k, (p, cats[k].1.push(c))),
        None => cats.push((p, seq![c])),
    }
}

/// The categories of `ds`, in the order in which their prefixes first occur,
/// or the error of the first define that has none.
pub open spec fn categorize(ds: Seq<DefineModel>) -> Result<
    Seq<(Seq<char>, Seq<ConstantModel>)>,
    CategoryError,
>
    decreases ds.len(),
{
    if ds.len() == 0 {
        Ok(Seq::empty())
    } else {
        match categorize(ds.drop_last()) {
            Err(e) => Err(e),
            Ok(cats) => match constant_of(ds.last()) {
                Err(e) => Err(e),
                Ok((p, c)) => Ok(add_constant(cats, p, c)),
            },
        }
    }
}

/// No two categories share a prefix.
pub open spec fn unique_prefixes(cats: Seq<(Seq<char>, Seq<ConstantModel>)>) -> bool {
    forall|a: int, b: int| 0 <= a < b < cats.len() ==> #[trigger] cats[a].0 != #[trigger] cats[b].0
}

proof fn lemma_category_index(cats: Seq<(Seq<char>, Seq<ConstantModel>)>, p: Seq<char>, i: int)
    requires
        0 <= i,
    ensures
        category_index(cats, p, i) matches Some(k) ==> i <= k < cats.len() && cats[k].0 == p,
        category_index(cats, p, i) is None ==> forall|m: int|
            i <= m < cats.len() ==> #[trigger] cats[m].0 != p,
    decreases cats.len() - i,
{
    if i < cats.len() && cats[i].0 != p {
        lemma_category_index(cats, p, i + 1);
    }
}

/// Grouping never makes two categories with the same prefix.
pub proof fn lemma_unique_prefixes(ds: Seq<DefineModel>)
    requires
        categorize(ds) is Ok,
    ensures
        unique_prefixes(categorize(ds)->Ok_0),
    decreases ds.len(),
{
    if ds.len() > 0 {
        lemma_unique_prefixes(ds.drop_last());
        let cats = categorize(ds.drop_last())->Ok_0;
        let (p, c) = constant_of(ds.last())->Ok_0;
        lemma_category_index(cats, p, 0);
        let r = add_constant(cats, p, c);
        assert forall|a: int, b: int| 0 <= a < b < r.len() implies #[trigger] r[a].0 != #[trigger] r[b].0 by {
            if category_index(cats, p, 0) is None && b == cats.len() {
                assert(cats[a].0 != p);
            }
        }
    }
}

pub open spec fn categories_model(cats: Seq<(String, Category)>) -> Seq<(Seq<char>, Seq<ConstantModel>)> {
    cats.map_values(|e: (String, Category)| (e.0@, e.1@))
}

/// Makes the part of a name after its prefix a valid identifier: a `_` is
/// put in front of it where it starts with a digit.
pub fn sanitize_name(s: &[char], from: usize) -> (r: String)
    requires
        from <= s@.len(),
    ensures
        r@ == sanitize(s@.subrange(from as int, s@.len() as int)),
{
    let mut r = String::new();
    if from < s.len() && '0' <= s[from] && s[from] <= '9' {
        push_char(&mut r, '_');
    }
    let mut i: usize = from;
    while i < s.len()
        invariant
            from <= i <= s@.len(),
            r@ == (if from < s@.len() && is_digit(s@[from as int]) {
                seq!['_']
            } else {
                Seq::empty()
            }) + s@.subrange(from as int, i as int),
        decreases s@.len() - i,
    {
        push_char(&mut r, s[i]);
        i = i + 1;
    }
    r
}

/// The prefix of a define's name and the constant that the define becomes.
pub fn constant_from(d: &Define) -> (r: Result<(String, Constant), CategoryError>)
    ensures
        match r {
            Ok((p, c)) => constant_of(d@) == Ok::<(Seq<char>, ConstantModel), CategoryError>((p@, c@)),
            Err(e) => constant_of(d@) == Err::<(Seq<char>, ConstantModel), CategoryError>(e),
        },
{
    let name = to_chars(d.name.as_str());
    let mut k: usize = 0;
    while k < name.len() && name[k] != '_'
        invariant
            k <= name@.len(),
            name@ == d.name@,
            separator_from(name@, 0) == separator_from(name@, k as int),
        decreases name@.len() - k,
    {
        k = k + 1;
    }
    if k == name.len() {
        return Err(CategoryError::InvalidDefineName);
    }
    let value = match &d.expression {
        Expression::Constant(v) => *v,
        Expression::Expression { .. } => return Err(CategoryError::UnexpectedDeferredExpression),
    };
    let prefix = string_of(name.as_slice(), 0, k);
    let comment = d.comment.clone();
    let constant = Constant {
        name: sanitize_name(name.as_slice(), k + 1),
        alias_name: d.name.clone(),
        value,
        comment,
    };
    Ok((prefix, constant))
}

proof fn lemma_categorize_err(ds: Seq<DefineModel>, j: int)
    requires
        0 <= j <= ds.len(),
        categorize(ds.subrange(0, j)) is Err,
    ensures
        categorize(ds) == categorize(ds.subrange(0, j)),
    decreases ds.len() - j,
{
    if j == ds.len() {
        assert(ds.subrange(0, j) =~= ds);
    } else {
        assert(ds.drop_last().subrange(0, j) =~= ds.subrange(0, j));
        lemma_categorize_err(ds.drop_last(), j);
    }
}

/// Groups defines into categories by the prefix of their names, the part
/// before the first `_`. Categories come in the order in which their
/// prefixes first occur, and constants in the order of their defines.
pub fn create_categories(defines: Vec<Define>) -> (r: Result<Vec<(String, Category)>, CategoryError>)
    ensures
        match r {
            Ok(cats) => categorize(models(defines@)) == Ok::<
                Seq<(Seq<char>, Seq<ConstantModel>)>,
                CategoryError,
            >(categories_model(cats@)) && unique_prefixes(categories_model(cats@)),
            Err(e) => categorize(models(defines@)) == Err::<
                Seq<(Seq<char>, Seq<ConstantModel>)>,
                CategoryError,
            >(e),
        },
{
    let ghost ms = models(defines@);
    let mut out: Vec<(String, Category)> = Vec::new();
    let mut i: usize = 0;
    assert(ms.subrange(0, 0) =~= Seq::<DefineModel>::empty());
    assert(categories_model(out@) =~= Seq::empty());
    while i < defines.len()
        invariant
            i <= defines@.len(),
            ms == models(defines@),
            categorize(ms.subrange(0, i as int)) == Ok::<
                Seq<(Seq<char>, Seq<ConstantModel>)>,
                CategoryError,
            >(categories_model(out@)),
        decreases defines@.len() - i,
    {
        let ghost before = ms.subrange(0, i as int);
        assert(ms.subrange(0, i + 1).drop_last() =~= before);
        assert(ms.subrange(0, i + 1).last() == defines@[i as int]@);
        let (prefix, constant) = match constant_from(&defines[i]) {
            Ok(pc) => pc,
            Err(e) => {
                proof {
                    lemma_categorize_err(ms, i + 1);
                }
                return Err(e);
            },
        };
        let ghost cm = categories_model(out@);
        let ghost c = constant@;
        let mut j: usize = 0;
        while j < out.len() && out[j].0 != prefix
            invariant
                j <= out@.len(),
                cm == categories_model(out@),
                category_index(cm, prefix@, 0) == category_index(cm, prefix@, j as int),
            decreases out@.len() - j,
        {
            j = j + 1;
        }
        if j < out.len() {
            let ghost old_out = out@;
            let ghost cv = constant;
            out[j].1.constants.push(constant);
            assert(out@[j as int].1.constants@ == old_out[j as int].1.constants@.push(cv));
            assert(out@[j as int].1@ =~= cm[j as int].1.push(c));
            assert(categories_model(out@) =~= cm.update(j as int, (prefix@, cm[j as int].1.push(c))));
        } else {
            let cat = Category { constants: vec![constant] };
            assert(cat@ =~= seq![c]);
            out.push((prefix, cat));
            assert(categories_model(out@) =~= cm.push((prefix@, seq![c])));
        }
        i = i + 1;
    }
    assert(ms.subrange(0, i as int) =~= ms);
    proof {
        lemma_unique_prefixes(ms);
    }
    Ok(out)
}

/// A constant keeps the define's full name as its alias, and its own name is
/// the rest after the prefix, with a `_` put in front where that rest starts
/// with a digit.
pub proof fn lemma_constant_names(d: DefineModel)
    requires
        constant_of(d) is Ok,
    ensures
        ({
            let k = separator_from(d.name, 0)->Some_0;
            let suffix = d.name.subrange(k + 1, d.name.len() as int);
            let c = constant_of(d)->Ok_0.1;
            &&& c.alias_name == d.name
            &&& constant_of(d)->Ok_0.0 == d.name.subrange(0, k)
            &&& suffix.len() > 0 && is_digit(suffix[0]) ==> c.name == seq!['_'] + suffix
            &&& !(suffix.len() > 0 && is_digit(suffix[0])) ==> c.name == suffix
        }),
{
}

} // verus!
