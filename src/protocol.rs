use vstd::prelude::*;

verus! {

/// The known kinds of message, each carried on the wire as a 16-bit code.
#[derive(Debug, Clone, Copy, PartialEq, Eq, Structural)]
pub enum Message {
    ClientHello,
    ClientHelloResp,
    ClientDisconnect,
    ClientEject,
    ClientHeartbeat,
    ClientObjectSetField,
    ClientObjectSetFields,
    ClientObjectLeaving,
    ClientObjectLocation,
    ClientEnterObjectRequired,
    ClientEnterObjectRequiredOther,
    ClientObjectLeavingOwner,
    ClientEnterObjectRequiredOwner,
    ClientEnterObjectRequiredOtherOwner,
    ClientAddInterest,
    ClientAddInterestMultiple,
    ClientRemoveInterest,
    ClientDoneInterestResp,
    ControlAddChannel,
    ControlRemoveChannel,
    ControlAddRange,
    ControlRemoveRange,
    ControlAddPostRemove,
    ControlClearPostRemoves,
    ControlSetConName,
    ControlSetConUrl,
    ControlLogMessage,
}

/// The wire code of a message kind.
pub open spec fn message_code(m: Message) -> u16 {
    match m {
        Message::ClientHello => 1,
        Message::ClientHelloResp => 2,
        Message::ClientDisconnect => 3,
        Message::ClientEject => 4,
        Message::ClientHeartbeat => 5,
        Message::ClientObjectSetField => 120,
        Message::ClientObjectSetFields => 121,
        Message::ClientObjectLeaving => 132,
        Message::ClientObjectLocation => 140,
        Message::ClientEnterObjectRequired => 142,
        Message::ClientEnterObjectRequiredOther => 143,
        Message::ClientObjectLeavingOwner => 161,
        Message::ClientEnterObjectRequiredOwner => 172,
        Message::ClientEnterObjectRequiredOtherOwner => 173,
        Message::ClientAddInterest => 200,
        Message::ClientAddInterestMultiple => 201,
        Message::ClientRemoveInterest => 203,
        Message::ClientDoneInterestResp => 204,
        Message::ControlAddChannel => 9000,
        Message::ControlRemoveChannel => 9001,
        Message::ControlAddRange => 9002,
        Message::ControlRemoveRange => 9003,
        Message::ControlAddPostRemove => 9010,
        Message::ControlClearPostRemoves => 9011,
        Message::ControlSetConName => 9012,
        Message::ControlSetConUrl => 9013,
        Message::ControlLogMessage => 9014,
    }
}

/// The message kind carried under a wire code, if the code is known.
pub open spec fn message_of_code(code: u16) -> Option<Message> {
    match code {
        1 => Some(Message::ClientHello),
        2 => Some(Message::ClientHelloResp),
        3 => Some(Message::ClientDisconnect),
        4 => Some(Message::ClientEject),
        5 => Some(Message::ClientHeartbeat),
        120 => Some(Message::ClientObjectSetField),
        121 => Some(Message::ClientObjectSetFields),
        132 => Some(Message::ClientObjectLeaving),
        140 => Some(Message::ClientObjectLocation),
        142 => Some(Message::ClientEnterObjectRequired),
        143 => Some(Message::ClientEnterObjectRequiredOther),
        161 => Some(Message::ClientObjectLeavingOwner),
        172 => Some(Message::ClientEnterObjectRequiredOwner),
        173 => Some(Message::ClientEnterObjectRequiredOtherOwner),
        200 => Some(Message::ClientAddInterest),
        201 => Some(Message::ClientAddInterestMultiple),
        203 => Some(Message::ClientRemoveInterest),
        204 => Some(Message::ClientDoneInterestResp),
        9000 => Some(Message::ControlAddChannel),
        9001 => Some(Message::ControlRemoveChannel),
        9002 => Some(Message::ControlAddRange),
        9003 => Some(Message::ControlRemoveRange),
        9010 => Some(Message::ControlAddPostRemove),
        9011 => Some(Message::ControlClearPostRemoves),
        9012 => Some(Message::ControlSetConName),
        9013 => Some(Message::ControlSetConUrl),
        9014 => Some(Message::ControlLogMessage),
        _ => None,
    }
}

impl Message {
    /// The wire code of this message kind.
    pub fn code(&self) -> (r: u16)
        ensures
            r == message_code(*self),
    {
        match self {
            Message::ClientHello => 1,
            Message::ClientHelloResp => 2,
            Message::ClientDisconnect => 3,
            Message::ClientEject => 4,
            Message::ClientHeartbeat => 5,
            Message::ClientObjectSetField => 120,
            Message::ClientObjectSetFields => 121,
            Message::ClientObjectLeaving => 132,
            Message::ClientObjectLocation => 140,
            Message::ClientEnterObjectRequired => 142,
            Message::ClientEnterObjectRequiredOther => 143,
            Message::ClientObjectLeavingOwner => 161,
            Message::ClientEnterObjectRequiredOwner => 172,
            Message::ClientEnterObjectRequiredOtherOwner => 173,
            Message::ClientAddInterest => 200,
            Message::ClientAddInterestMultiple => 201,
            Message::ClientRemoveInterest => 203,
            Message::ClientDoneInterestResp => 204,
            Message::ControlAddChannel => 9000,
            Message::ControlRemoveChannel => 9001,
            Message::ControlAddRange => 9002,
            Message::ControlRemoveRange => 9003,
            Message::ControlAddPostRemove => 9010,
            Message::ControlClearPostRemoves => 9011,
            Message::ControlSetConName => 9012,
            Message::ControlSetConUrl => 9013,
            Message::ControlLogMessage => 9014,
        }
    }

    /// The message kind carried under `code`, or `None` for an unknown code.
    pub fn from_code(code: u16) -> (r: Option<Message>)
        ensures
            r == message_of_code(code),
    {
        match code {
            1 => Some(Message::ClientHello),
            2 => Some(Message::ClientHelloResp),
            3 => Some(Message::ClientDisconnect),
            4 => Some(Message::ClientEject),
            5 => Some(Message::ClientHeartbeat),
            120 => Some(Message::ClientObjectSetField),
            121 => Some(Message::ClientObjectSetFields),
            132 => Some(Message::ClientObjectLeaving),
            140 => Some(Message::ClientObjectLocation),
            142 => Some(Message::ClientEnterObjectRequired),
            143 => Some(Message::ClientEnterObjectRequiredOther),
            161 => Some(Message::ClientObjectLeavingOwner),
            172 => Some(Message::ClientEnterObjectRequiredOwner),
            173 => Some(Message::ClientEnterObjectRequiredOtherOwner),
            200 => Some(Message::ClientAddInterest),
            201 => Some(Message::ClientAddInterestMultiple),
            203 => Some(Message::ClientRemoveInterest),
            204 => Some(Message::ClientDoneInterestResp),
            9000 => Some(Message::ControlAddChannel),
            9001 => Some(Message::ControlRemoveChannel),
            9002 => Some(Message::ControlAddRange),
            9003 => Some(Message::ControlRemoveRange),
            9010 => Some(Message::ControlAddPostRemove),
            9011 => Some(Message::ControlClearPostRemoves),
            9012 => Some(Message::ControlSetConName),
            9013 => Some(Message::ControlSetConUrl),
            9014 => Some(Message::ControlLogMessage),
            _ => None,
        }
    }
}

/// Every message kind is recovered from its own code, and a known code names
/// the one kind whose code it is.
pub proof fn lemma_code_round_trip(m: Message, code: u16)
    ensures
        message_of_code(message_code(m)) == Some(m),
        message_of_code(code) == Some(m) ==> message_code(m) == code,
{
}

} // verus!
