use crate::address::{address_text, address_to_string};
use crate::decimal::{decimal_digits, fixed_point_text};
use crate::decoder::{is_negative, magnitude, u256_is_negative, u256_to_string};
use crate::word::Word256;
use vstd::prelude::*;
use vstd::string::*;

verus! {

/// One swap, as it is reported: who sent, who received, which way the swap
/// went, and the two amounts as fixed-point numerals.
#[derive(Debug, PartialEq, Eq)]
pub struct ParsedLog {
    pub sender: String,
    pub receiver: String,
    pub direction: String,
    pub amount_usdc: String,
    pub amount_dai: String,
}

/// What a `ParsedLog` says, as plain text.
pub struct ParsedLogView {
    pub sender: Seq<char>,
    pub receiver: Seq<char>,
    pub direction: Seq<char>,
    pub amount_usdc: Seq<char>,
    pub amount_dai: Seq<char>,
}

impl View for ParsedLog {
    type V = ParsedLogView;

    open spec fn view(&self) -> ParsedLogView {
        ParsedLogView {
            sender: self.sender@,
            receiver: self.receiver@,
            direction: self.direction@,
            amount_usdc: self.amount_usdc@,
            amount_dai: self.amount_dai@,
        }
    }
}

impl Clone for ParsedLog {
    fn clone(&self) -> (copy: Self)
        ensures
            copy@ == self@,
    {
        ParsedLog {
            sender: self.sender.clone(),
            receiver: self.receiver.clone(),
            direction: self.direction.clone(),
            amount_usdc: self.amount_usdc.clone(),
            amount_dai: self.amount_dai.clone(),
        }
    }
}

/// The text that sets a record out, one field to a line.
pub open spec fn description(record: ParsedLogView) -> Seq<char> {
    "Parsed Log: {\n"@ + " sender: "@ + record.sender + "\n"@ + " receiver: "@ + record.receiver
        + "\n"@ + " direction: "@ + record.direction + "\n"@ + " amount_usdc: "@
        + record.amount_usdc + "\n"@ + " amount_dai: "@ + record.amount_dai + "\n"@ + "}"@
}

impl ParsedLog {
    /// Sets the record out as text, one field to a line, between braces.
    pub fn describe(&self) -> (text: String)
        ensures
            text@ == description(self@),
    {
        let mut text = String::from_str("Parsed Log: {\n");
        text.append(" sender: ");
        text.append(self.sender.as_str());
        text.append("\n");
        text.append(" receiver: ");
        text.append(self.receiver.as_str());
        text.append("\n");
        text.append(" direction: ");
        text.append(self.direction.as_str());
        text.append("\n");
        text.append(" amount_usdc: ");
        text.append(self.amount_usdc.as_str());
        text.append("\n");
        text.append(" amount_dai: ");
        text.append(self.amount_dai.as_str());
        text.append("\n");
        text.append("}");
        text
    }
}

/// The views of a run of logs, in order.
pub open spec fn log_views(logs: Seq<ParsedLog>) -> Seq<ParsedLogView> {
    logs.map_values(|log: ParsedLog| log@)
}

/// The number of decimal places of a DAI amount.
pub const DAI_DECIMALS: usize = 18;

/// The number of decimal places of a USDC amount.
pub const USDC_DECIMALS: usize = 6;

/// One value of a decoded log, as far as a swap is made of them.
#[derive(Clone, Copy, Debug, PartialEq, Eq)]
pub enum Token {
    /// An account.
    Address([u8; 20]),
    /// A signed 256-bit integer, in two's complement.
    Int(Word256),
    /// A value of any other kind.
    Other,
}

/// A decoded log: its values, in the order of the event's parameters.
#[derive(Debug, PartialEq, Eq)]
pub struct Log {
    pub params: Vec<Token>,
}

/// Why a decoded log is not the record of a swap.
#[derive(Clone, Copy, Debug, PartialEq, Eq, Structural)]
pub enum DecodeError {
    /// The log has no value at place `index`.
    MissingParameter { index: usize },
    /// The value at place `index` is not an account.
    NotAnAddress { index: usize },
    /// The value at place `index` is not a signed integer.
    NotAnInteger { index: usize },
    /// The two amounts are both negative, or neither is.
    SignPattern,
}

/// What keeps the value at place `index` from being an account, if anything.
pub open spec fn address_error(params: Seq<Token>, index: int) -> Option<DecodeError> {
    if index >= params.len() {
        Some(DecodeError::MissingParameter { index: index as usize })
    } else if !(params[index] is Address) {
        Some(DecodeError::NotAnAddress { index: index as usize })
    } else {
        None
    }
}

/// What keeps the value at place `index` from being a signed integer, if
/// anything.
pub open spec fn integer_error(params: Seq<Token>, index: int) -> Option<DecodeError> {
    if index >= params.len() {
        Some(DecodeError::MissingParameter { index: index as usize })
    } else if !(params[index] is Int) {
        Some(DecodeError::NotAnInteger { index: index as usize })
    } else {
        None
    }
}

/// The text that tells which way a swap went. The negative amount is the one
/// that left the pool, and the direction starts at its token: from USDC to
/// DAI where the USDC amount is the negative one, else from DAI to USDC.
pub open spec fn direction_text(amount_usdc: nat) -> Seq<char> {
    if is_negative(amount_usdc) {
        "USDC -> DAI"@
    } else {
        "DAI -> USDC"@
    }
}

/// The record of a swap between `sender` and `receiver` with the two raw
/// amounts, each written with the decimal places of its token, or the reason
/// why there is none: a swap has exactly one negative amount.
pub open spec fn swap_record(
    sender: Seq<u8>,
    receiver: Seq<u8>,
    amount_dai: nat,
    amount_usdc: nat,
    decimals_dai: nat,
    decimals_usdc: nat,
) -> Result<ParsedLogView, DecodeError> {
    if is_negative(amount_dai) == is_negative(amount_usdc) {
        Err(DecodeError::SignPattern)
    } else {
        Ok(
            ParsedLogView {
                sender: address_text(sender),
                receiver: address_text(receiver),
                direction: direction_text(amount_usdc),
                amount_usdc: fixed_point_text(
                    decimal_digits(magnitude(amount_usdc)),
                    decimals_usdc,
                ),
                amount_dai: fixed_point_text(decimal_digits(magnitude(amount_dai)), decimals_dai),
            },
        )
    }
}

/// The record that a decoded log stands for, or the reason why it stands for
/// none. A swap is logged as two accounts and two signed amounts, DAI before
/// USDC; of several faults the one at the lowest place is reported, and the
/// signs are looked at last.
pub open spec fn parsed(params: Seq<Token>) -> Result<ParsedLogView, DecodeError> {
    if address_error(params, 0) is Some {
        Err(address_error(params, 0)->0)
    } else if address_error(params, 1) is Some {
        Err(address_error(params, 1)->0)
    } else if integer_error(params, 2) is Some {
        Err(integer_error(params, 2)->0)
    } else if integer_error(params, 3) is Some {
        Err(integer_error(params, 3)->0)
    } else {
        swap_record(
            params[0]->Address_0@,
            params[1]->Address_0@,
            params[2]->Int_0@,
            params[3]->Int_0@,
            DAI_DECIMALS as nat,
            USDC_DECIMALS as nat,
        )
    }
}

/// The view of a record that may be missing.
pub open spec fn outcome_view(outcome: Result<ParsedLog, DecodeError>) -> Result<
    ParsedLogView,
    DecodeError,
> {
    match outcome {
        Ok(record) => Ok(record@),
        Err(error) => Err(error),
    }
}

/// The account at place `index` of a log.
fn address_at(log: &Log, index: usize) -> (outcome: Result<[u8; 20], DecodeError>)
    ensures
        match outcome {
            Ok(address) => address_error(log.params@, index as int) is None
                && log.params@[index as int] == Token::Address(address),
            Err(error) => address_error(log.params@, index as int) == Some(error),
        },
{
    if index >= log.params.len() {
        return Err(DecodeError::MissingParameter { index });
    }
    match log.params[index] {
        Token::Address(address) => Ok(address),
        _ => Err(DecodeError::NotAnAddress { index }),
    }
}

/// The signed integer at place `index` of a log.
fn integer_at(log: &Log, index: usize) -> (outcome: Result<Word256, DecodeError>)
    ensures
        match outcome {
            Ok(word) => integer_error(log.params@, index as int) is None
                && log.params@[index as int] == Token::Int(word),
            Err(error) => integer_error(log.params@, index as int) == Some(error),
        },
{
    if index >= log.params.len() {
        return Err(DecodeError::MissingParameter { index });
    }
    match log.params[index] {
        Token::Int(word) => Ok(word),
        _ => Err(DecodeError::NotAnInteger { index }),
    }
}

/// Builds the record of a swap from its two accounts and its two raw amounts.
/// Exactly one of the amounts must be negative: it is the one that left the
/// pool, and the direction starts at its token. The record holds the absolute
/// values, each with the decimal places of its token.
pub fn build_record(
    sender: &[u8; 20],
    receiver: &[u8; 20],
    amount_dai: Word256,
    amount_usdc: Word256,
    decimals_dai: usize,
    decimals_usdc: usize,
) -> (outcome: Result<ParsedLog, DecodeError>)
    ensures
        outcome_view(outcome) == swap_record(
            sender@,
            receiver@,
            amount_dai@,
            amount_usdc@,
            decimals_dai as nat,
            decimals_usdc as nat,
        ),
{
    let is_amount_dai_negative = u256_is_negative(amount_dai);
    let is_amount_usdc_negative = u256_is_negative(amount_usdc);
    if is_amount_dai_negative == is_amount_usdc_negative {
        return Err(DecodeError::SignPattern);
    }
    let direction = if is_amount_usdc_negative {
        String::from_str("USDC -> DAI")
    } else {
        String::from_str("DAI -> USDC")
    };
    Ok(
        ParsedLog {
            sender: address_to_string(sender),
            receiver: address_to_string(receiver),
            direction,
            amount_usdc: u256_to_string(amount_usdc, decimals_usdc),
            amount_dai: u256_to_string(amount_dai, decimals_dai),
        },
    )
}

/// Reads the record of a swap out of a decoded log: the sender, the receiver,
/// the DAI amount and the USDC amount, in this order.
pub fn parse_log(log: &Log) -> (outcome: Result<ParsedLog, DecodeError>)
    ensures
        outcome_view(outcome) == parsed(log.params@),
{
    let sender = match address_at(log, 0) {
        Ok(address) => address,
        Err(error) => {
            return Err(error);
        },
    };
    let receiver = match address_at(log, 1) {
        Ok(address) => address,
        Err(error) => {
            return Err(error);
        },
    };
    let amount_dai = match integer_at(log, 2) {
        Ok(word) => word,
        Err(error) => {
            return Err(error);
        },
    };
    let amount_usdc = match integer_at(log, 3) {
        Ok(word) => word,
        Err(error) => {
            return Err(error);
        },
    };
    build_record(&sender, &receiver, amount_dai, amount_usdc, DAI_DECIMALS, USDC_DECIMALS)
}

/// The direction of a swap depends on the signs of its two amounts and on
/// nothing else: it runs from USDC to DAI where the USDC amount is the
/// negative one, and from DAI to USDC where the DAI amount is. The two texts
/// differ.
pub proof fn lemma_direction_follows_signs(
    sender: Seq<u8>,
    receiver: Seq<u8>,
    amount_dai: nat,
    amount_usdc: nat,
    decimals_dai: nat,
    decimals_usdc: nat,
)
    requires
        is_negative(amount_dai) != is_negative(amount_usdc),
    ensures
        swap_record(sender, receiver, amount_dai, amount_usdc, decimals_dai, decimals_usdc) is Ok,
        is_negative(amount_usdc) ==> swap_record(
            sender,
            receiver,
            amount_dai,
            amount_usdc,
            decimals_dai,
            decimals_usdc,
        )->Ok_0.direction == "USDC -> DAI"@,
        is_negative(amount_dai) ==> swap_record(
            sender,
            receiver,
            amount_dai,
            amount_usdc,
            decimals_dai,
            decimals_usdc,
        )->Ok_0.direction == "DAI -> USDC"@,
        "USDC -> DAI"@ != "DAI -> USDC"@,
{
    reveal_strlit("USDC -> DAI");
    reveal_strlit("DAI -> USDC");
    assert("USDC -> DAI"@[0] == 'U');
    assert("DAI -> USDC"@[0] == 'D');
}

} // verus!
