//! The error capability that reports and boxes are built on.
use vstd::prelude::*;

verus! {

/// What a report reads of an error: its display text, its direct source and
/// the backtrace it captured, if any.
///
/// The source of an error is always an [`ErrorRecord`]: past the first link
/// of a chain the concrete types are gone and only their texts remain.
pub trait Error {
    /// The display text.
    spec fn text(&self) -> Seq<char>;

    /// The direct source, if there is one.
    spec fn cause(&self) -> Option<ErrorRecord>;

    /// The text of the captured backtrace, if there is one.
    spec fn trace(&self) -> Option<Seq<char>>;

    fn display(&self) -> (s: &str)
        ensures
            s@ == self.text(),
    ;

    fn source(&self) -> (r: Option<&ErrorRecord>)
        ensures
            r is Some <==> self.cause() is Some,
            r matches Some(e) ==> *e == self.cause()->0,
    ;

    fn backtrace(&self) -> (r: Option<&str>)
        ensures
            r is Some <==> self.trace() is Some,
            r matches Some(t) ==> t@ == self.trace()->0,
    ;
}

/// The display texts along the chain of `error`: its own first, then that of
/// its source, and so on down to the error that has no source.
pub open spec fn chain_of<E: Error>(error: E) -> Seq<Seq<char>> {
    match error.cause() {
        None => seq![error.text()],
        Some(cause) => seq![error.text()] + cause.texts(),
    }
}

/// An error held as plain data.
#[derive(Debug)]
pub struct ErrorRecord {
    pub message: String,
    pub source: Option<Box<ErrorRecord>>,
    pub backtrace: Option<String>,
}

impl ErrorRecord {
    /// The errors of the chain that starts here, this one first.
    pub open spec fn links(&self) -> Seq<ErrorRecord>
        decreases self,
    {
        match self.source {
            None => seq![*self],
            Some(inner) => seq![*self] + inner.links(),
        }
    }

    /// The display texts of [`links`](Self::links).
    pub open spec fn texts(&self) -> Seq<Seq<char>>
        decreases self,
    {
        match self.source {
            None => seq![self.message@],
            Some(inner) => seq![self.message@] + inner.texts(),
        }
    }

    /// An error without a source and without a backtrace.
    pub fn new(message: &str) -> (e: ErrorRecord)
        ensures
            e.message@ == message@,
            e.source is None,
            e.backtrace is None,
    {
        ErrorRecord { message: message.to_owned(), source: None, backtrace: None }
    }

    /// An error caused by `source`, without a backtrace.
    pub fn new_with_source(message: &str, source: ErrorRecord) -> (e: ErrorRecord)
        ensures
            e.message@ == message@,
            e.source == Some(Box::new(source)),
            e.backtrace is None,
            e.texts() == seq![message@] + source.texts(),
    {
        ErrorRecord { message: message.to_owned(), source: Some(Box::new(source)), backtrace: None }
    }

    /// The same error with `trace` as its captured backtrace.
    pub fn with_backtrace(self, trace: &str) -> (e: ErrorRecord)
        ensures
            e.message == self.message,
            e.source == self.source,
            e.backtrace is Some,
            e.backtrace->0@ == trace@,
    {
        ErrorRecord { message: self.message, source: self.source, backtrace: Some(trace.to_owned()) }
    }

    /// Walks the chain: this error, its source, the source of that, and so on.
    pub fn chain(&self) -> (v: Vec<&ErrorRecord>)
        ensures
            v@.len() == self.links().len(),
            forall|i: int| 0 <= i < v@.len() ==> *#[trigger] v@[i] == self.links()[i],
    {
        let mut v: Vec<&ErrorRecord> = Vec::new();
        v.push(self);
        let mut cur: &ErrorRecord = self;
        while cur.source.is_some()
            invariant
                v@.len() >= 1,
                v@.len() - 1 + cur.links().len() == self.links().len(),
                forall|i: int| 0 <= i < v@.len() - 1 ==> *#[trigger] v@[i] == self.links()[i],
                forall|j: int|
                    0 <= j < cur.links().len() ==> #[trigger] cur.links()[j] == self.links()[
                        v@.len() - 1 + j],
                *v@[v@.len() - 1] == *cur,
            decreases cur,
        {
            let next: &ErrorRecord = cur.source.as_ref().unwrap();
            proof {
                let inner = *next;
                assert(cur.links() == seq![*cur] + inner.links());
                assert forall|j: int| 0 <= j < inner.links().len() implies #[trigger] inner.links()[j]
                    == self.links()[v@.len() + j] by {
                    assert(cur.links()[j + 1] == inner.links()[j]);
                }
                assert(cur.links()[0] == *cur);
                assert(inner.links()[0] == inner) by {
                    inner.lemma_links_start();
                }
            }
            v.push(next);
            cur = next;
        }
        proof {
            cur.lemma_links_start();
            assert(cur.links()[0] == self.links()[v@.len() - 1]);
        }
        v
    }

    /// A chain starts with the error itself and is as long as its texts.
    pub proof fn lemma_links_start(&self)
        ensures
            self.links().len() >= 1,
            self.links()[0] == *self,
            self.texts().len() == self.links().len(),
        decreases self,
    {
        match self.source {
            None => {},
            Some(inner) => {
                inner.lemma_links_start();
            },
        }
    }

    /// Entry `i` of the texts is the message of link `i`.
    pub proof fn lemma_links_texts(&self, i: int)
        requires
            0 <= i < self.links().len(),
        ensures
            self.texts().len() == self.links().len(),
            self.texts()[i] == self.links()[i].message@,
        decreases self,
    {
        self.lemma_links_start();
        match self.source {
            None => {},
            Some(inner) => {
                inner.lemma_links_start();
                if i > 0 {
                    inner.lemma_links_texts(i - 1);
                    assert(self.links()[i] == inner.links()[i - 1]);
                    assert(self.texts()[i] == inner.texts()[i - 1]);
                }
            },
        }
    }
}

impl Error for ErrorRecord {
    open spec fn text(&self) -> Seq<char> {
        self.message@
    }

    open spec fn cause(&self) -> Option<ErrorRecord> {
        match self.source {
            None => None,
            Some(inner) => Some(*inner),
        }
    }

    open spec fn trace(&self) -> Option<Seq<char>> {
        match self.backtrace {
            None => None,
            Some(trace) => Some(trace@),
        }
    }

    fn display(&self) -> (s: &str) {
        self.message.as_str()
    }

    fn source(&self) -> (r: Option<&ErrorRecord>) {
        match &self.source {
            None => None,
            Some(inner) => Some(&**inner),
        }
    }

    fn backtrace(&self) -> (r: Option<&str>) {
        match &self.backtrace {
            None => None,
            Some(trace) => Some(trace.as_str()),
        }
    }
}

/// A borrowed error is the error it borrows.
impl<'a, T: Error> Error for &'a T {
    open spec fn text(&self) -> Seq<char> {
        (**self).text()
    }

    open spec fn cause(&self) -> Option<ErrorRecord> {
        (**self).cause()
    }

    open spec fn trace(&self) -> Option<Seq<char>> {
        (**self).trace()
    }

    fn display(&self) -> (s: &str) {
        (**self).display()
    }

    fn source(&self) -> (r: Option<&ErrorRecord>) {
        (**self).source()
    }

    fn backtrace(&self) -> (r: Option<&str>) {
        (**self).backtrace()
    }
}

} // verus!
