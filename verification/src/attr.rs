//! Annotations on declarations, and what is read out of them: the integer
//! type of a union's discriminant and the sizes of padding gaps.

use crate::error::LayoutError;
use crate::schema::same_text;
use vstd::prelude::*;

verus! {

/// A path of names, such as `repr` or `a::b`.
#[derive(Debug, PartialEq, Eq)]
pub struct Path {
    /// Whether the path starts with `::`.
    pub leading_colon: bool,
    /// The names, in order.
    pub segments: Vec<String>,
}

impl Path {
    /// Whether the path is one bare name.
    pub open spec fn single(self) -> bool {
        !self.leading_colon && self.segments@.len() == 1
    }

    /// Whether the path is the one bare name `ident`.
    pub open spec fn names(self, ident: Seq<char>) -> bool {
        self.single() && self.segments@[0]@ == ident
    }

    /// The path that is the one bare name `ident`.
    pub fn ident(ident: &str) -> (p: Path)
        ensures
            p.names(ident@),
    {
        let mut segments: Vec<String> = Vec::new();
        segments.push(ident.to_owned());
        Path { leading_colon: false, segments }
    }

    /// Whether the path is the one bare name `ident`.
    pub fn is_ident(&self, ident: &str) -> (b: bool)
        ensures
            b == self.names(ident@),
    {
        !self.leading_colon && self.segments.len() == 1 && same_text(
            self.segments[0].as_str(),
            ident,
        )
    }

    /// The name, if the path is one bare name.
    pub fn get_ident(&self) -> (r: Option<&String>)
        ensures
            self.single() ==> r == Some(&self.segments@[0]),
            !self.single() ==> r is None,
    {
        if !self.leading_colon && self.segments.len() == 1 {
            Some(&self.segments[0])
        } else {
            None
        }
    }
}

/// A literal in an annotation. Only integers are looked into.
#[derive(Clone, Copy, Debug, PartialEq, Eq, Structural)]
pub enum Lit {
    /// An integer literal, with its value.
    Int(usize),
    /// Any other literal: a string, a boolean, a character.
    Other,
}

/// One argument in the list of an annotation such as `repr(C, u16)`.
#[derive(Debug, PartialEq, Eq)]
pub enum NestedMeta {
    /// A path, such as `u16`.
    Path(Path),
    /// A list or a name and a value, such as `align(4)`.
    Meta,
    /// A literal.
    Lit,
}

/// What follows the name of an annotation.
#[derive(Debug, PartialEq, Eq)]
pub enum Meta {
    /// Nothing: the annotation is a bare name.
    Path,
    /// A list of arguments in parentheses.
    List(Vec<NestedMeta>),
    /// `=` and a literal.
    NameValue(Lit),
}

/// An annotation on a declaration, a variant or a field.
#[derive(Debug, PartialEq, Eq)]
pub struct Attribute {
    /// The name of the annotation.
    pub path: Path,
    /// What follows the name, or `None` where that is in none of the three
    /// forms of [`Meta`].
    pub meta: Option<Meta>,
}

impl Attribute {
    /// The annotation `name = value`.
    pub fn name_value(name: &str, value: usize) -> (a: Attribute)
        ensures
            a.path.names(name@),
            a.meta == Some(Meta::NameValue(Lit::Int(value))),
    {
        Attribute { path: Path::ident(name), meta: Some(Meta::NameValue(Lit::Int(value))) }
    }

    /// The annotation `repr(ty)`.
    pub fn repr(ty: &str) -> (a: Attribute)
        ensures
            a.path.names("repr"@),
            a.meta matches Some(Meta::List(items)) && items@.len() == 1 && (items@[0] matches NestedMeta::Path(
                p,
            ) && p.names(ty@)),
    {
        let mut items: Vec<NestedMeta> = Vec::new();
        items.push(NestedMeta::Path(Path::ident(ty)));
        Attribute { path: Path::ident("repr"), meta: Some(Meta::List(items)) }
    }
}

/// What the arguments of one `repr` annotation say of the discriminant
/// type: the first path among them that is neither `C` nor `transparent`
/// decides, and it must be one bare name. `None` where no argument decides.
pub open spec fn repr_in_list(items: Seq<NestedMeta>) -> Option<Result<String, LayoutError>>
    decreases items.len(),
{
    if items.len() == 0 {
        None
    } else {
        match items[0] {
            NestedMeta::Path(p) => if p.names("C"@) || p.names("transparent"@) {
                repr_in_list(items.drop_first())
            } else if p.single() {
                Some(Ok(p.segments@[0]))
            } else {
                Some(Err(LayoutError::InvalidReprArgument))
            },
            _ => repr_in_list(items.drop_first()),
        }
    }
}

/// The name of the discriminant type that a declaration's annotations
/// give. The annotations named `repr` are gone through in order. One that
/// is a list must have arguments, and the first one whose arguments decide
/// (see [`repr_in_list`]) gives the answer; one in no known form is
/// refused; one in another form is passed over. Where none decides, the
/// discriminant type is missing.
pub open spec fn repr_ident(attrs: Seq<Attribute>) -> Result<String, LayoutError>
    decreases attrs.len(),
{
    if attrs.len() == 0 {
        Err(LayoutError::MissingDiscriminantType)
    } else if !attrs[0].path.names("repr"@) {
        repr_ident(attrs.drop_first())
    } else {
        match attrs[0].meta {
            None => Err(LayoutError::UnparseableRepr),
            Some(Meta::List(items)) => if items@.len() == 0 {
                Err(LayoutError::EmptyRepr)
            } else {
                match repr_in_list(items@) {
                    Some(r) => r,
                    None => repr_ident(attrs.drop_first()),
                }
            },
            Some(_) => repr_ident(attrs.drop_first()),
        }
    }
}

/// The name of the integer type that holds a union's discriminant, as the
/// declaration's annotations give it.
pub fn get_enum_type(attrs: &Vec<Attribute>) -> (r: Result<String, LayoutError>)
    ensures
        r == repr_ident(attrs@),
{
    let mut i: usize = 0;
    assert(attrs@.skip(0) =~= attrs@);
    while i < attrs.len()
        invariant
            i <= attrs@.len(),
            repr_ident(attrs@) == repr_ident(attrs@.skip(i as int)),
        decreases attrs@.len() - i,
    {
        let attr = &attrs[i];
        proof {
            assert(attrs@.skip(i as int).drop_first() =~= attrs@.skip(i + 1));
        }
        i = i + 1;
        if !attr.path.is_ident("repr") {
            continue ;
        }
        let list = match &attr.meta {
            None => {
                return Err(LayoutError::UnparseableRepr);
            },
            Some(Meta::List(x)) => x,
            Some(_) => {
                continue ;
            },
        };
        if list.len() == 0 {
            return Err(LayoutError::EmptyRepr);
        }
        let mut j: usize = 0;
        assert(list@.skip(0) =~= list@);
        while j < list.len()
            invariant
                j <= list@.len(),
                i <= attrs@.len(),
                repr_in_list(list@) == repr_in_list(list@.skip(j as int)),
                repr_ident(attrs@) == match repr_in_list(list@) {
                    Some(r) => r,
                    None => repr_ident(attrs@.skip(i as int)),
                },
            decreases list@.len() - j,
        {
            let nested = &list[j];
            proof {
                assert(list@.skip(j as int).drop_first() =~= list@.skip(j + 1));
            }
            j = j + 1;
            let path = match nested {
                NestedMeta::Path(p) => p,
                _ => {
                    continue ;
                },
            };
            if path.is_ident("C") || path.is_ident("transparent") {
                continue ;
            }
            return match path.get_ident() {
                Some(name) => Ok(name.clone()),
                None => Err(LayoutError::InvalidReprArgument),
            };
        }
    }
    Err(LayoutError::MissingDiscriminantType)
}

/// The size that the annotations give to the padding gap called `name`.
/// The first annotation of that name decides: it must be a name and an
/// integer. Where there is none, the gap is absent.
pub open spec fn padding_named(attrs: Seq<Attribute>, name: Seq<char>) -> Result<
    Option<usize>,
    LayoutError,
>
    decreases attrs.len(),
{
    if attrs.len() == 0 {
        Ok(None)
    } else if !attrs[0].path.names(name) {
        padding_named(attrs.drop_first(), name)
    } else {
        match attrs[0].meta {
            None => Err(LayoutError::UnparseablePadding),
            Some(Meta::NameValue(Lit::Int(n))) => Ok(Some(n)),
            Some(Meta::NameValue(_)) => Err(LayoutError::PaddingNotInteger),
            Some(_) => Err(LayoutError::PaddingNotNameValue),
        }
    }
}

/// The size of the padding gap called `attr_name`, as the annotations give
/// it.
pub fn get_padding(attrs: &Vec<Attribute>, attr_name: &str) -> (r: Result<
    Option<usize>,
    LayoutError,
>)
    ensures
        r == padding_named(attrs@, attr_name@),
{
    let mut i: usize = 0;
    assert(attrs@.skip(0) =~= attrs@);
    while i < attrs.len()
        invariant
            i <= attrs@.len(),
            padding_named(attrs@, attr_name@) == padding_named(attrs@.skip(i as int), attr_name@),
        decreases attrs@.len() - i,
    {
        let attr = &attrs[i];
        proof {
            assert(attrs@.skip(i as int).drop_first() =~= attrs@.skip(i + 1));
        }
        i = i + 1;
        if !attr.path.is_ident(attr_name) {
            continue ;
        }
        let lit = match &attr.meta {
            None => {
                return Err(LayoutError::UnparseablePadding);
            },
            Some(Meta::NameValue(x)) => x,
            Some(_) => {
                return Err(LayoutError::PaddingNotNameValue);
            },
        };
        return match lit {
            Lit::Int(x) => Ok(Some(*x)),
            _ => Err(LayoutError::PaddingNotInteger),
        };
    }
    Ok(None)
}

/// The padding before a field: its annotation `padding`.
pub fn get_field_padding(attrs: &Vec<Attribute>) -> (r: Result<Option<usize>, LayoutError>)
    ensures
        r == padding_named(attrs@, "padding"@),
{
    get_padding(attrs, "padding")
}

/// The padding before a union's discriminant: the annotation
/// `pre_disc_padding`.
pub fn get_pre_disc_padding(attrs: &Vec<Attribute>) -> (r: Result<Option<usize>, LayoutError>)
    ensures
        r == padding_named(attrs@, "pre_disc_padding"@),
{
    get_padding(attrs, "pre_disc_padding")
}

/// The padding after a union's discriminant: the annotation
/// `post_disc_padding`.
pub fn get_post_disc_padding(attrs: &Vec<Attribute>) -> (r: Result<Option<usize>, LayoutError>)
    ensures
        r == padding_named(attrs@, "post_disc_padding"@),
{
    get_padding(attrs, "post_disc_padding")
}

/// The padding after all of a record or union: the annotation
/// `trailing_padding`.
pub fn get_trailing_padding(attrs: &Vec<Attribute>) -> (r: Result<Option<usize>, LayoutError>)
    ensures
        r == padding_named(attrs@, "trailing_padding"@),
{
    get_padding(attrs, "trailing_padding")
}

} // verus!
