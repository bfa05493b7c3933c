use vstd::prelude::*;

verus! {

/// One operation on one container, with its arguments.
pub enum Command {
    /// `MPUSH_BACK`
    ArrayPushBack(String),
    /// `MPUSH_INDEX`
    ArrayPushIndex(usize, String),
    /// `MDEL`
    ArrayRemove(usize),
    /// `MGET`
    ArrayGet(usize),
    /// `MREPLACE`
    ArrayReplace(usize, String),
    /// `MLEN`
    ArrayLength,
    /// `MPRINT`
    ArrayPrint,
    /// `FPUSH_HEAD`
    SinglyPushHead(String),
    /// `FPUSH_TAIL`
    SinglyPushTail(String),
    /// `FDEL_HEAD`
    SinglyRemoveHead,
    /// `FDEL_TAIL`
    SinglyRemoveTail,
    /// `FDEL_VALUE`
    SinglyRemoveValue(String),
    /// `FSEARCH`
    SinglySearch(String),
    /// `FPRINT`
    SinglyPrint,
    /// `LPUSH_HEAD`
    DoublyPushHead(String),
    /// `LPUSH_TAIL`
    DoublyPushTail(String),
    /// `LDEL_HEAD`
    DoublyRemoveHead,
    /// `LDEL_TAIL`
    DoublyRemoveTail,
    /// `LSEARCH`
    DoublySearch(String),
    /// `LPRINT_FORWARD`
    DoublyPrintForward,
    /// `LPRINT_BACKWARD`
    DoublyPrintBackward,
    /// `SPUSH`
    StackPush(String),
    /// `SPOP`
    StackPop,
    /// `SPEEK`
    StackPeek,
    /// `SEMPTY`
    StackIsEmpty,
    /// `SPRINT`
    StackPrint,
    /// `QPUSH`
    QueuePush(String),
    /// `QPOP`
    QueuePop,
    /// `QPEEK`
    QueuePeek,
    /// `QEMPTY`
    QueueIsEmpty,
    /// `QPRINT`
    QueuePrint,
    /// `TINSERT`
    TreeInsert(String),
    /// `TSEARCH`
    TreeSearch(String),
    /// `TISFULL`
    TreeIsFull,
    /// `TPRINT`
    TreePrint,
}

/// What the words of a query ask for.
pub enum Parsed {
    /// A known operation with the arguments it needs.
    Run(Command),
    /// Nothing to do: no words, too few arguments, or an index that is not a
    /// number.
    Ignored,
    /// The operation name, in upper case, is not known.
    Unknown(String),
}

/// The upper-case form of `s`, as Unicode defines it.
pub uninterp spec fn upper_of(s: Seq<char>) -> Seq<char>;

/// Relies on `str::to_uppercase`: the result depends on the characters alone.
#[verifier::external_body]
fn to_upper(s: &str) -> (r: String)
    ensures
        r@ == upper_of(s@),
{
    s.to_uppercase()
}

/// Every character of `s` is an ASCII decimal digit, and there is at least one.
pub open spec fn is_digits(s: Seq<char>) -> bool {
    s.len() > 0 && forall|i: int| 0 <= i < s.len() ==> '0' <= #[trigger] s[i] <= '9'
}

/// The number that the decimal digits `s` denote.
pub open spec fn decimal_value(s: Seq<char>) -> nat
    decreases s.len(),
{
    if s.len() == 0 {
        0
    } else {
        decimal_value(s.drop_last()) * 10 + ((s.last() as u32) - ('0' as u32)) as nat
    }
}

/// The index that the text `s` denotes: decimal digits after an optional
/// `+`, with a value that fits in `usize`.
pub open spec fn index_of_text(s: Seq<char>) -> Option<usize> {
    let d = if s.len() > 0 && s[0] == '+' {
        s.drop_first()
    } else {
        s
    };
    if is_digits(d) && decimal_value(d) <= usize::MAX {
        Some(decimal_value(d) as usize)
    } else {
        None
    }
}

/// Relies on `str::parse::<usize>`: an optional `+` and then decimal digits,
/// rejected when the value does not fit.
#[verifier::external_body]
fn parse_index(s: &str) -> (r: Option<usize>)
    ensures
        r == index_of_text(s@),
{
    s.parse::<usize>().ok()
}

/// Whether `a` and `b` hold the same characters.
fn text_eq(a: &str, b: &str) -> (r: bool)
    ensures
        r == (a@ == b@),
{
    let n = a.unicode_len();
    if n != b.unicode_len() {
        return false;
    }
    let mut i: usize = 0;
    while i < n
        invariant
            n == a@.len(),
            n == b@.len(),
            i <= n,
            forall|j: int| 0 <= j < i ==> a@[j] == b@[j],
        decreases n - i,
    {
        if a.get_char(i) != b.get_char(i) {
            return false;
        }
        i = i + 1;
    }
    assert(a@ =~= b@);
    true
}

/// The position in the table of operation names of `name`.
pub open spec fn operation_number(name: Seq<char>) -> Option<nat> {
    if name == "MPUSH_BACK"@ {
        Some(0nat)
    } else if name == "MPUSH_INDEX"@ {
        Some(1nat)
    } else if name == "MDEL"@ {
        Some(2nat)
    } else if name == "MGET"@ {
        Some(3nat)
    } else if name == "MREPLACE"@ {
        Some(4nat)
    } else if name == "MLEN"@ {
        Some(5nat)
    } else if name == "MPRINT"@ {
        Some(6nat)
    } else if name == "FPUSH_HEAD"@ {
        Some(7nat)
    } else if name == "FPUSH_TAIL"@ {
        Some(8nat)
    } else if name == "FDEL_HEAD"@ {
        Some(9nat)
    } else if name == "FDEL_TAIL"@ {
        Some(10nat)
    } else if name == "FDEL_VALUE"@ {
        Some(11nat)
    } else if name == "FSEARCH"@ {
        Some(12nat)
    } else if name == "FPRINT"@ {
        Some(13nat)
    } else if name == "LPUSH_HEAD"@ {
        Some(14nat)
    } else if name == "LPUSH_TAIL"@ {
        Some(15nat)
    } else if name == "LDEL_HEAD"@ {
        Some(16nat)
    } else if name == "LDEL_TAIL"@ {
        Some(17nat)
    } else if name == "LSEARCH"@ {
        Some(18nat)
    } else if name == "LPRINT_FORWARD"@ {
        Some(19nat)
    } else if name == "LPRINT_BACKWARD"@ {
        Some(20nat)
    } else if name == "SPUSH"@ {
        Some(21nat)
    } else if name == "SPOP"@ {
        Some(22nat)
    } else if name == "SPEEK"@ {
        Some(23nat)
    } else if name == "SEMPTY"@ {
        Some(24nat)
    } else if name == "SPRINT"@ {
        Some(25nat)
    } else if name == "QPUSH"@ {
        Some(26nat)
    } else if name == "QPOP"@ {
        Some(27nat)
    } else if name == "QPEEK"@ {
        Some(28nat)
    } else if name == "QEMPTY"@ {
        Some(29nat)
    } else if name == "QPRINT"@ {
        Some(30nat)
    } else if name == "TINSERT"@ {
        Some(31nat)
    } else if name == "TSEARCH"@ {
        Some(32nat)
    } else if name == "TISFULL"@ {
        Some(33nat)
    } else if name == "TPRINT"@ {
        Some(34nat)
    } else {
        None
    }
}

/// The number of arguments that operation `op` takes after its name.
pub open spec fn arity(op: nat) -> nat {
    if op == 1 || op == 4 {
        2
    } else if op == 0 || op == 2 || op == 3 || op == 7 || op == 8 || op == 11 || op == 12 || op == 14 || op == 15 || op == 18 || op == 21 || op == 26 || op == 31 || op == 32 {
        1
    } else {
        0
    }
}

/// The command that the words `parts` ask for when operation `op` is named
/// and enough arguments follow; `None` when an index is not a number.
pub open spec fn command_of(op: nat, parts: Seq<String>) -> Option<Command> {
    if op == 0 {
        Some(Command::ArrayPushBack(parts[1]))
    } else if op == 1 {
        match index_of_text(parts[1]@) {
            Some(i) => Some(Command::ArrayPushIndex(i, parts[2])),
            None => None,
        }
    } else if op == 2 {
        match index_of_text(parts[1]@) {
            Some(i) => Some(Command::ArrayRemove(i)),
            None => None,
        }
    } else if op == 3 {
        match index_of_text(parts[1]@) {
            Some(i) => Some(Command::ArrayGet(i)),
            None => None,
        }
    } else if op == 4 {
        match index_of_text(parts[1]@) {
            Some(i) => Some(Command::ArrayReplace(i, parts[2])),
            None => None,
        }
    } else if op == 5 {
        Some(Command::ArrayLength)
    } else if op == 6 {
        Some(Command::ArrayPrint)
    } else if op == 7 {
        Some(Command::SinglyPushHead(parts[1]))
    } else if op == 8 {
        Some(Command::SinglyPushTail(parts[1]))
    } else if op == 9 {
        Some(Command::SinglyRemoveHead)
    } else if op == 10 {
        Some(Command::SinglyRemoveTail)
    } else if op == 11 {
        Some(Command::SinglyRemoveValue(parts[1]))
    } else if op == 12 {
        Some(Command::SinglySearch(parts[1]))
    } else if op == 13 {
        Some(Command::SinglyPrint)
    } else if op == 14 {
        Some(Command::DoublyPushHead(parts[1]))
    } else if op == 15 {
        Some(Command::DoublyPushTail(parts[1]))
    } else if op == 16 {
        Some(Command::DoublyRemoveHead)
    } else if op == 17 {
        Some(Command::DoublyRemoveTail)
    } else if op == 18 {
        Some(Command::DoublySearch(parts[1]))
    } else if op == 19 {
        Some(Command::DoublyPrintForward)
    } else if op == 20 {
        Some(Command::DoublyPrintBackward)
    } else if op == 21 {
        Some(Command::StackPush(parts[1]))
    } else if op == 22 {
        Some(Command::StackPop)
    } else if op == 23 {
        Some(Command::StackPeek)
    } else if op == 24 {
        Some(Command::StackIsEmpty)
    } else if op == 25 {
        Some(Command::StackPrint)
    } else if op == 26 {
        Some(Command::QueuePush(parts[1]))
    } else if op == 27 {
        Some(Command::QueuePop)
    } else if op == 28 {
        Some(Command::QueuePeek)
    } else if op == 29 {
        Some(Command::QueueIsEmpty)
    } else if op == 30 {
        Some(Command::QueuePrint)
    } else if op == 31 {
        Some(Command::TreeInsert(parts[1]))
    } else if op == 32 {
        Some(Command::TreeSearch(parts[1]))
    } else if op == 33 {
        Some(Command::TreeIsFull)
    } else if op == 34 {
        Some(Command::TreePrint)
    } else {
        None
    }
}

/// Reads a query already split into words: the first word names the
/// operation, in any case, and the next ones are its arguments.
pub fn parse_command(parts: &Vec<String>) -> (r: Parsed)
    ensures
        parts@.len() == 0 ==> r == Parsed::Ignored,
        parts@.len() > 0 && operation_number(upper_of(parts@[0]@)) is None ==> r is Unknown
            && r->Unknown_0@ == upper_of(parts@[0]@),
        parts@.len() > 0 && operation_number(upper_of(parts@[0]@)) is Some ==> ({
            let op = operation_number(upper_of(parts@[0]@)).unwrap();
            if parts@.len() <= arity(op) {
                r == Parsed::Ignored
            } else {
                match command_of(op, parts@) {
                    Some(c) => r == Parsed::Run(c),
                    None => r == Parsed::Ignored,
                }
            }
        }),
{
    if parts.len() == 0 {
        return Parsed::Ignored;
    }
    let name = to_upper(parts[0].as_str());
    let n = parts.len();
    let op: usize = 
    if text_eq(name.as_str(), "MPUSH_BACK") {
        0
    } else if text_eq(name.as_str(), "MPUSH_INDEX") {
        1
    } else if text_eq(name.as_str(), "MDEL") {
        2
    } else if text_eq(name.as_str(), "MGET") {
        3
    } else if text_eq(name.as_str(), "MREPLACE") {
        4
    } else if text_eq(name.as_str(), "MLEN") {
        5
    } else if text_eq(name.as_str(), "MPRINT") {
        6
    } else if text_eq(name.as_str(), "FPUSH_HEAD") {
        7
    } else if text_eq(name.as_str(), "FPUSH_TAIL") {
        8
    } else if text_eq(name.as_str(), "FDEL_HEAD") {
        9
    } else if text_eq(name.as_str(), "FDEL_TAIL") {
        10
    } else if text_eq(name.as_str(), "FDEL_VALUE") {
        11
    } else if text_eq(name.as_str(), "FSEARCH") {
        12
    } else if text_eq(name.as_str(), "FPRINT") {
        13
    } else if text_eq(name.as_str(), "LPUSH_HEAD") {
        14
    } else if text_eq(name.as_str(), "LPUSH_TAIL") {
        15
    } else if text_eq(name.as_str(), "LDEL_HEAD") {
        16
    } else if text_eq(name.as_str(), "LDEL_TAIL") {
        17
    } else if text_eq(name.as_str(), "LSEARCH") {
        18
    } else if text_eq(name.as_str(), "LPRINT_FORWARD") {
        19
    } else if text_eq(name.as_str(), "LPRINT_BACKWARD") {
        20
    } else if text_eq(name.as_str(), "SPUSH") {
        21
    } else if text_eq(name.as_str(), "SPOP") {
        22
    } else if text_eq(name.as_str(), "SPEEK") {
        23
    } else if text_eq(name.as_str(), "SEMPTY") {
        24
    } else if text_eq(name.as_str(), "SPRINT") {
        25
    } else if text_eq(name.as_str(), "QPUSH") {
        26
    } else if text_eq(name.as_str(), "QPOP") {
        27
    } else if text_eq(name.as_str(), "QPEEK") {
        28
    } else if text_eq(name.as_str(), "QEMPTY") {
        29
    } else if text_eq(name.as_str(), "QPRINT") {
        30
    } else if text_eq(name.as_str(), "TINSERT") {
        31
    } else if text_eq(name.as_str(), "TSEARCH") {
        32
    } else if text_eq(name.as_str(), "TISFULL") {
        33
    } else if text_eq(name.as_str(), "TPRINT") {
        34
    } else {
        return Parsed::Unknown(name);
    };
    let needed: usize = 
    if op == 1 || op == 4 {
        2
    } else if op == 0 || op == 2 || op == 3 || op == 7 || op == 8 || op == 11 || op == 12 || op == 14 || op == 15 || op == 18 || op == 21 || op == 26 || op == 31 || op == 32 {
        1
    } else {
        0
    };
    if n <= needed {
        return Parsed::Ignored;
    }
    let index: Option<usize> = if needed == 0 {
        None
    } else {
        parse_index(parts[1].as_str())
    };
    let c: Option<Command> = match op {
        0 => Some(Command::ArrayPushBack(parts[1].clone())),
        1 => match index {
            Some(i) => Some(Command::ArrayPushIndex(i, parts[2].clone())),
            None => None,
        },
        2 => match index {
            Some(i) => Some(Command::ArrayRemove(i)),
            None => None,
        },
        3 => match index {
            Some(i) => Some(Command::ArrayGet(i)),
            None => None,
        },
        4 => match index {
            Some(i) => Some(Command::ArrayReplace(i, parts[2].clone())),
            None => None,
        },
        5 => Some(Command::ArrayLength),
        6 => Some(Command::ArrayPrint),
        7 => Some(Command::SinglyPushHead(parts[1].clone())),
        8 => Some(Command::SinglyPushTail(parts[1].clone())),
        9 => Some(Command::SinglyRemoveHead),
        10 => Some(Command::SinglyRemoveTail),
        11 => Some(Command::SinglyRemoveValue(parts[1].clone())),
        12 => Some(Command::SinglySearch(parts[1].clone())),
        13 => Some(Command::SinglyPrint),
        14 => Some(Command::DoublyPushHead(parts[1].clone())),
        15 => Some(Command::DoublyPushTail(parts[1].clone())),
        16 => Some(Command::DoublyRemoveHead),
        17 => Some(Command::DoublyRemoveTail),
        18 => Some(Command::DoublySearch(parts[1].clone())),
        19 => Some(Command::DoublyPrintForward),
        20 => Some(Command::DoublyPrintBackward),
        21 => Some(Command::StackPush(parts[1].clone())),
        22 => Some(Command::StackPop),
        23 => Some(Command::StackPeek),
        24 => Some(Command::StackIsEmpty),
        25 => Some(Command::StackPrint),
        26 => Some(Command::QueuePush(parts[1].clone())),
        27 => Some(Command::QueuePop),
        28 => Some(Command::QueuePeek),
        29 => Some(Command::QueueIsEmpty),
        30 => Some(Command::QueuePrint),
        31 => Some(Command::TreeInsert(parts[1].clone())),
        32 => Some(Command::TreeSearch(parts[1].clone())),
        33 => Some(Command::TreeIsFull),
        34 => Some(Command::TreePrint),
        _ => None,
    };
    match c {
        Some(c) => Parsed::Run(c),
        None => Parsed::Ignored,
    }
}

} // verus!
