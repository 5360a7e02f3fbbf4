//! The token tree that the lexer hands to the generator.

use vstd::prelude::*;
use crate::text::same_text;

verus! {

/// An attribute list: keys with their values, in the order of first mention.
pub type Attributes = Vec<(String, String)>;

/// One token. An element is an `ElementOpen`, then at most one
/// `ElementClasses`, at most one `ElementAttributes`, and at most one of
/// `InlineContent` and `ChildTokens`. Nothing marks the element's end: the
/// generator finds it where the next element opens or the sequence ends.
#[derive(Debug)]
pub enum Token {
    ElementOpen { name: String },
    ElementClasses { classes: Vec<String> },
    ElementAttributes { attributes: Attributes },
    InlineContent { content: String },
    ChildTokens { children: Vec<Token> },
    BlankLine,
    TextLine { content: String },
}

/// A token as a mathematical value.
pub enum TokenModel {
    ElementOpen { name: Seq<char> },
    ElementClasses { classes: Seq<Seq<char>> },
    ElementAttributes { attributes: Seq<(Seq<char>, Seq<char>)> },
    InlineContent { content: Seq<char> },
    ChildTokens { children: Seq<TokenModel> },
    BlankLine,
    TextLine { content: Seq<char> },
}

/// The mathematical value of a token.
pub open spec fn token_model(token: Token) -> TokenModel
    decreases token,
{
    match token {
        Token::ElementOpen { name } => TokenModel::ElementOpen { name: name@ },
        Token::ElementClasses { classes } => TokenModel::ElementClasses {
            classes: classes.deep_view(),
        },
        Token::ElementAttributes { attributes } => TokenModel::ElementAttributes {
            attributes: attributes.deep_view(),
        },
        Token::InlineContent { content } => TokenModel::InlineContent { content: content@ },
        Token::ChildTokens { children } => TokenModel::ChildTokens {
            children: Seq::new(
                children.len() as nat,
                |i: int|
                    if 0 <= i < children.len() {
                        token_model(children[i])
                    } else {
                        TokenModel::BlankLine
                    },
            ),
        },
        Token::BlankLine => TokenModel::BlankLine,
        Token::TextLine { content } => TokenModel::TextLine { content: content@ },
    }
}

impl DeepView for Token {
    type V = TokenModel;

    open spec fn deep_view(&self) -> TokenModel {
        token_model(*self)
    }
}

/// The model of a `ChildTokens` token holds the models of its children.
pub proof fn lemma_children_model(children: Vec<Token>)
    ensures
        (Token::ChildTokens { children }).deep_view() == (TokenModel::ChildTokens {
            children: children.deep_view(),
        }),
{
    let a = token_model(Token::ChildTokens { children })->ChildTokens_children;
    assert(a =~= children.deep_view());
}

/// Pushing onto a vector pushes the item's model onto the vector's model.
pub proof fn lemma_model_push<T: DeepView>(before: Vec<T>, after: Vec<T>, item: T)
    requires
        after@ == before@.push(item),
    ensures
        after.deep_view() == before.deep_view().push(item.deep_view()),
{
    assert(after.deep_view() =~= before.deep_view().push(item.deep_view()));
}

/// The model of a vector, cut after its first `n + 1` items, is the model cut
/// after `n` items with the model of the next item pushed.
pub proof fn lemma_model_take<T: DeepView>(items: Vec<T>, n: int)
    requires
        0 <= n < items.len(),
    ensures
        items.deep_view().take(n + 1) == items.deep_view().take(n).push(items[n].deep_view()),
        items.deep_view().take(items.len() as int) == items.deep_view(),
        items.deep_view().take(0) == Seq::<T::V>::empty(),
{
    assert(items.deep_view().take(n + 1) =~= items.deep_view().take(n).push(
        items[n].deep_view(),
    ));
    assert(items.deep_view().take(items.len() as int) =~= items.deep_view());
    assert(items.deep_view().take(0) =~= Seq::<T::V>::empty());
}

/// The model of two vectors, one after the other, is the two models one
/// after the other.
pub proof fn lemma_model_concat<T: DeepView>(whole: Vec<T>, front: Vec<T>, back: Vec<T>)
    requires
        whole@ == front@ + back@,
    ensures
        whole.deep_view() == front.deep_view() + back.deep_view(),
{
    assert(whole.deep_view() =~= front.deep_view() + back.deep_view());
}

/// Where `key` stands in an attribute list: the place of the first pair with
/// this key, if there is one.
pub open spec fn key_index(attributes: Seq<(Seq<char>, Seq<char>)>, key: Seq<char>) -> Option<int>
    decreases attributes.len(),
{
    if attributes.len() == 0 {
        None
    } else {
        match key_index(attributes.drop_last(), key) {
            Some(i) => Some(i),
            None => if attributes.last().0 == key {
                Some(attributes.len() - 1)
            } else {
                None
            },
        }
    }
}

/// The list with `value` bound to `key`: in the place where `key` stood
/// before, or at the end where it did not occur.
pub open spec fn with_attribute(
    attributes: Seq<(Seq<char>, Seq<char>)>,
    key: Seq<char>,
    value: Seq<char>,
) -> Seq<(Seq<char>, Seq<char>)> {
    match key_index(attributes, key) {
        Some(i) => attributes.update(i, (key, value)),
        None => attributes.push((key, value)),
    }
}

/// Finds the place of `key` in an attribute list.
pub fn find_key(attributes: &Attributes, key: &str) -> (place: Option<usize>)
    ensures
        match place {
            Some(i) => key_index(attributes.deep_view(), key@) == Some(i as int)
                && i < attributes.len(),
            None => key_index(attributes.deep_view(), key@) is None,
        },
{
    let mut place: Option<usize> = None;
    let mut i: usize = 0;
    assert(attributes.deep_view().take(0) =~= Seq::empty());
    while i < attributes.len()
        invariant
            i <= attributes.len(),
            match place {
                Some(at) => key_index(attributes.deep_view().take(i as int), key@) == Some(
                    at as int,
                ) && at < i,
                None => key_index(attributes.deep_view().take(i as int), key@) is None,
            },
        decreases attributes.len() - i,
    {
        let ghost longer = attributes.deep_view().take(i + 1);
        assert(longer.drop_last() == attributes.deep_view().take(i as int));
        assert(longer.last() == (attributes[i as int].0@, attributes[i as int].1@));
        if place.is_none() && same_text(attributes[i].0.as_str(), key) {
            place = Some(i);
        }
        i = i + 1;
    }
    assert(attributes.deep_view().take(i as int) == attributes.deep_view());
    place
}

/// Binds `value` to `key`, in place of what was bound to it before.
pub fn set_attribute(attributes: &mut Attributes, key: String, value: String)
    ensures
        final(attributes).deep_view() == with_attribute(old(attributes).deep_view(), key@, value@),
{
    match find_key(attributes, key.as_str()) {
        Some(i) => {
            attributes.set(i, (key, value));
            assert(attributes.deep_view() =~= old(attributes).deep_view().update(
                i as int,
                (key@, value@),
            ));
        },
        None => {
            attributes.push((key, value));
            assert(attributes.deep_view() =~= old(attributes).deep_view().push((key@, value@)));
        },
    }
}

/// A copy of a list of strings.
pub fn copy_strings(items: &Vec<String>) -> (copy: Vec<String>)
    ensures
        copy.deep_view() == items.deep_view(),
{
    let mut copy: Vec<String> = Vec::new();
    let mut i: usize = 0;
    while i < items.len()
        invariant
            i <= items.len(),
            copy.deep_view() == items.deep_view().take(i as int),
        decreases items.len() - i,
    {
        let ghost before = copy;
        let item = items[i].clone();
        copy.push(item);
        proof {
            lemma_model_push(before, copy, item);
            lemma_model_take(*items, i as int);
        }
        i = i + 1;
    }
    assert(items.deep_view().take(i as int) =~= items.deep_view());
    copy
}

/// A copy of an attribute list.
pub fn copy_attributes(items: &Attributes) -> (copy: Attributes)
    ensures
        copy.deep_view() == items.deep_view(),
{
    let mut copy: Attributes = Vec::new();
    let mut i: usize = 0;
    while i < items.len()
        invariant
            i <= items.len(),
            copy.deep_view() == items.deep_view().take(i as int),
        decreases items.len() - i,
    {
        let ghost before = copy;
        let item = (items[i].0.clone(), items[i].1.clone());
        copy.push(item);
        proof {
            lemma_model_push(before, copy, item);
            lemma_model_take(*items, i as int);
        }
        i = i + 1;
    }
    assert(items.deep_view().take(i as int) =~= items.deep_view());
    copy
}

impl Token {
    /// A copy of the token, with copies of all tokens below it.
    pub fn duplicate(&self) -> (copy: Token)
        ensures
            copy.deep_view() == self.deep_view(),
        decreases self,
    {
        match self {
            Token::ElementOpen { name } => Token::ElementOpen { name: name.clone() },
            Token::ElementClasses { classes } => Token::ElementClasses {
                classes: copy_strings(classes),
            },
            Token::ElementAttributes { attributes } => Token::ElementAttributes {
                attributes: copy_attributes(attributes),
            },
            Token::InlineContent { content } => Token::InlineContent { content: content.clone() },
            Token::ChildTokens { children } => {
                let mut copy: Vec<Token> = Vec::new();
                let mut i: usize = 0;
                while i < children.len()
                    invariant
                        i <= children.len(),
                        self is ChildTokens,
                        *children == self->ChildTokens_children,
                        copy.deep_view() == children.deep_view().take(i as int),
                    decreases children.len() - i,
                {
                    let ghost before = copy;
                    assert(decreases_to!(*children => children[i as int]));
                    let item = children[i].duplicate();
                    copy.push(item);
                    proof {
                        lemma_model_push(before, copy, item);
                        lemma_model_take(*children, i as int);
                    }
                    i = i + 1;
                }
                assert(children.deep_view().take(i as int) =~= children.deep_view());
                proof {
                    lemma_children_model(copy);
                    lemma_children_model(*children);
                }
                Token::ChildTokens { children: copy }
            },
            Token::BlankLine => Token::BlankLine,
            Token::TextLine { content } => Token::TextLine { content: content.clone() },
        }
    }
}

/// A copy of a token sequence.
pub fn copy_tokens(tokens: &Vec<Token>) -> (copy: Vec<Token>)
    ensures
        copy.deep_view() == tokens.deep_view(),
{
    let mut copy: Vec<Token> = Vec::new();
    let mut i: usize = 0;
    while i < tokens.len()
        invariant
            i <= tokens.len(),
            copy.deep_view() == tokens.deep_view().take(i as int),
        decreases tokens.len() - i,
    {
        let ghost before = copy;
        let item = tokens[i].duplicate();
        copy.push(item);
        proof {
            lemma_model_push(before, copy, item);
            lemma_model_take(*tokens, i as int);
        }
        i = i + 1;
    }
    assert(tokens.deep_view().take(i as int) =~= tokens.deep_view());
    copy
}

} // verus!
