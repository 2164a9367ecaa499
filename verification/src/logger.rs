use vstd::prelude::*;

verus! {

/// How severe a logged message is.
#[derive(PartialEq, Eq, Structural, Debug, Clone, Copy)]
pub enum SeverityLevel {
    TRACE,
    INFO,
    WARNING,
    ERROR,
    CRASH,
}

impl SeverityLevel {
    /// The tag that a printed line of this severity carries: a trace prints as a log line.
    pub fn tag(&self) -> (t: &'static str)
        ensures
            t@ == match self {
                SeverityLevel::TRACE => "LOG"@,
                SeverityLevel::INFO => "INFO"@,
                SeverityLevel::WARNING => "WARNING"@,
                SeverityLevel::ERROR => "ERROR"@,
                SeverityLevel::CRASH => "CRASH"@,
            },
    {
        match self {
            SeverityLevel::TRACE => "LOG",
            SeverityLevel::INFO => "INFO",
            SeverityLevel::WARNING => "WARNING",
            SeverityLevel::ERROR => "ERROR",
            SeverityLevel::CRASH => "CRASH",
        }
    }
}

/// A logged message: its id, the id of the message it belongs under, its severity and text.
pub struct Message<S> {
    parent_id: Option<u64>,
    id: u64,
    severity: S,
    message: String,
}

impl<S> Message<S> {
    /// The id.
    pub closed spec fn spec_id(&self) -> u64 {
        self.id
    }

    /// The parent's id.
    pub closed spec fn spec_parent_id(&self) -> Option<u64> {
        self.parent_id
    }

    /// The severity.
    pub closed spec fn spec_severity(&self) -> S {
        self.severity
    }

    /// The text.
    pub closed spec fn spec_message(&self) -> Seq<char> {
        self.message@
    }

    /// A message with the given id, severity, text and parent.
    pub fn new(id: u64, severity: S, message: String, parent_id: Option<u64>) -> (m: Self)
        ensures
            m.spec_id() == id,
            m.spec_severity() == severity,
            m.spec_message() == message@,
            m.spec_parent_id() == parent_id,
    {
        Message { parent_id, id, severity, message }
    }

    /// A message that takes the next id from the counter `current_id`, which moves on by one.
    pub fn create_message_node(
        current_id: &mut u64,
        severity: S,
        message: String,
        parent_id: Option<u64>,
    ) -> (m: Self)
        requires
            *old(current_id) < u64::MAX,
        ensures
            m.spec_id() == *old(current_id),
            *final(current_id) == *old(current_id) + 1,
            m.spec_severity() == severity,
            m.spec_message() == message@,
            m.spec_parent_id() == parent_id,
    {
        let m = Message::new(*current_id, severity, message, parent_id);
        *current_id = *current_id + 1;
        m
    }

    /// The id.
    pub fn id(&self) -> (r: u64)
        ensures
            r == self.spec_id(),
    {
        self.id
    }

    /// The parent's id.
    pub fn parent_id(&self) -> (r: Option<u64>)
        ensures
            r == self.spec_parent_id(),
    {
        self.parent_id
    }

    /// The severity.
    pub fn severity(&self) -> (r: &S)
        ensures
            *r == self.spec_severity(),
    {
        &self.severity
    }

    /// The text.
    pub fn message(&self) -> (r: &String)
        ensures
            r@ == self.spec_message(),
    {
        &self.message
    }
}

/// The pool of messages waiting to be printed, oldest first. Their ids come from a counter
/// that every logger of the program shares, handed to `push_message`.
pub struct Logger<S> {
    pub message_pool: Vec<Message<S>>,
    pub severe_pool: Vec<Message<S>>,
}

impl<S> Logger<S> {
    /// The messages waiting in the pool carry ascending ids, all below `next_id`, the shared
    /// counter's value: they leave in the order in which they were numbered.
    pub open spec fn numbered(&self, next_id: u64) -> bool {
        let pool = self.message_pool@;
        &&& forall|i: int, j: int|
            0 <= i < j < pool.len() ==> (#[trigger] pool[i]).spec_id() < (#[trigger] pool[j]).spec_id()
        &&& forall|i: int| 0 <= i < pool.len() ==> (#[trigger] pool[i]).spec_id() < next_id
    }

    /// A logger with empty pools.
    pub fn new() -> (l: Self)
        ensures
            forall|next_id: u64| l.numbered(next_id),
            l.message_pool@.len() == 0,
            l.severe_pool@.len() == 0,
    {
        Logger { message_pool: Vec::new(), severe_pool: Vec::new() }
    }

    /// Puts a message at the end of the pool, numbered with the shared counter's value; the
    /// counter then moves on by one, so no two messages of the program share an id and ids
    /// grow in the order of the calls.
    pub fn push_message(
        &mut self,
        message: &str,
        severity: S,
        parent_id: Option<u64>,
        current_id: &mut u64,
    )
        requires
            *old(current_id) < u64::MAX,
        ensures
            *final(current_id) == *old(current_id) + 1,
            old(self).numbered(*old(current_id)) ==> final(self).numbered(*final(current_id)),
            final(self).message_pool@.len() == old(self).message_pool@.len() + 1,
            final(self).message_pool@.drop_last() == old(self).message_pool@,
            ({
                let m = final(self).message_pool@.last();
                &&& m.spec_id() == *old(current_id)
                &&& m.spec_severity() == severity
                &&& m.spec_message() == message@
                &&& m.spec_parent_id() == parent_id
            }),
            final(self).severe_pool@ == old(self).severe_pool@,
    {
        let m = Message::create_message_node(current_id, severity, message.to_owned(), parent_id);
        self.message_pool.push(m);
        assert(self.message_pool@.drop_last() =~= old(self).message_pool@);
    }

    /// Takes the oldest message out of the pool, if there is one: the step of the printer.
    pub fn take_message(&mut self) -> (r: Option<Message<S>>)
        ensures
            forall|next_id: u64| old(self).numbered(next_id) ==> final(self).numbered(next_id),
            old(self).message_pool@.len() == 0 ==> r is None && final(self).message_pool@ == old(self).message_pool@,
            old(self).message_pool@.len() > 0 ==> r == Some(old(self).message_pool@[0])
                && final(self).message_pool@ == old(self).message_pool@.drop_first(),
            final(self).severe_pool@ == old(self).severe_pool@,
    {
        if self.message_pool.len() == 0 {
            None
        } else {
            let m = self.message_pool.remove(0);
            assert(self.message_pool@ =~= old(self).message_pool@.drop_first());
            Some(m)
        }
    }
}

/// The time stamp of a printed line, from the time since the printer started: whole minutes,
/// the seconds past the minute, and hundredths of a second within the last ten seconds.
pub fn timestamp(elapsed_secs: u64, elapsed_millis: u128) -> (r: (u128, u128, u128))
    ensures
        r.0 == elapsed_secs / 60,
        r.1 == elapsed_secs % 60,
        r.2 == elapsed_millis % 10000 / 10,
{
    let secs = (elapsed_secs % 60) as u128;
    let mins = (elapsed_secs / 60) as u128;
    let millis = elapsed_millis % 10000 / 10;
    (mins, secs, millis)
}

} // verus!
