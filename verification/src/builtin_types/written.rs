//! What the `__repr__` of a scalar writes reads back as the scalar: the
//! lexer reads the text as the literal of the value that wrote it.

use vstd::prelude::*;
use crate::builtin_types::bool_type::bool_repr_outcome;
use crate::builtin_types::bool_type::none_repr_outcome;
use crate::builtin_types::int_type::int_repr_outcome;
use crate::builtin_types::int_type::receiver_int;
use crate::builtin_types::string_type::receiver_text;
use crate::builtin_types::string_type::string_repr_outcome;
use crate::lexer::lemma_digits_read_back;
use crate::lexer::lemma_negative_reads_back;
use crate::lexer::lemma_quoted_reads_back;
use crate::lexer::lemma_words_read_back;
use crate::lexer::lexemes;
use crate::lexer::token_of;
use crate::lexer::Operator;
use crate::lexer::TokenView;
use crate::runtime::datamodel::CallParams;
use crate::runtime::names::MemoryAddress;
use crate::runtime::vm::VM;

verus! {

/// Whether the lexer reads `text` as the tokens `tokens`, none of which
/// is a number with a fraction.
pub open spec fn reads_as(text: Seq<char>, tokens: Seq<TokenView>) -> bool {
    lexemes(text) matches Ok(pieces) && pieces.len() == tokens.len() && forall|i: int|
        0 <= i < pieces.len() ==> token_of(#[trigger] pieces[i], None) == Some(tokens[i])
}

/// What `int.__repr__` writes for an integer reads back as the integer:
/// as its literal if it is not negative, and else as a minus sign in
/// front of the literal of its amount. The least integer is left out: its
/// amount is no integer.
pub proof fn lemma_int_repr_reads_back(before: VM, params: CallParams, r: MemoryAddress, after: VM)
    requires
        int_repr_outcome(before, params, r, after),
        receiver_int(before, params) matches Some(a) && a > i128::MIN,
    ensures
        ({
            let a = receiver_int(before, params).unwrap();
            let text = after.text_at(r).unwrap();
            if a >= 0 {
                reads_as(text, seq![TokenView::LiteralInteger(a)])
            } else {
                reads_as(
                    text,
                    seq![
                        TokenView::Operator(Operator::Minus),
                        TokenView::LiteralInteger((-a) as i128),
                    ],
                )
            }
        }),
{
    let a = receiver_int(before, params).unwrap();
    if a >= 0 {
        lemma_digits_read_back(a as nat);
    } else {
        lemma_negative_reads_back((-a) as nat);
    }
}

/// What `str.__repr__` writes for a string reads back as the literal of
/// the string.
pub proof fn lemma_string_repr_reads_back(
    before: VM,
    params: CallParams,
    r: MemoryAddress,
    after: VM,
)
    requires
        string_repr_outcome(before, params, r, after),
        receiver_text(before, params) is Some,
    ensures
        reads_as(
            after.text_at(r).unwrap(),
            seq![TokenView::LiteralString(receiver_text(before, params).unwrap())],
        ),
{
    lemma_quoted_reads_back(receiver_text(before, params).unwrap());
}

/// What `bool.__repr__` writes reads back as `True` for what counts as
/// true, and as `False` for what does not.
pub proof fn lemma_bool_repr_reads_back(before: VM, params: CallParams, r: MemoryAddress, after: VM)
    requires
        bool_repr_outcome(before, params, r, after),
        params.is_method_call(0),
    ensures
        reads_as(
            after.text_at(r).unwrap(),
            seq![
                if before.truthy(params.receiver()) {
                    TokenView::True
                } else {
                    TokenView::False
                },
            ],
        ),
{
    lemma_words_read_back();
}

/// What the `__repr__` of `None` writes reads back as `None`.
pub proof fn lemma_none_repr_reads_back(before: VM, params: CallParams, r: MemoryAddress, after: VM)
    requires
        none_repr_outcome(before, params, r, after),
        params.is_method_call(0),
    ensures
        reads_as(after.text_at(r).unwrap(), seq![TokenView::NoneValue]),
{
    lemma_words_read_back();
}

} // verus!
