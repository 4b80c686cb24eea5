//! What an operation reports when it cannot succeed.
use vstd::prelude::*;

verus! {

/// The error of the UTF-8 decoder of the standard library.
#[verifier::external_type_specification]
#[verifier::external_body]
pub struct ExUtf8Error(std::str::Utf8Error);

/// The error of the operating system's input and output.
#[verifier::external_type_specification]
#[verifier::external_body]
pub struct ExIoError(std::io::Error);

/// The error of RSA key generation.
#[verifier::external_type_specification]
#[verifier::external_body]
pub struct ExRsaError(rsa::Error);

/// The error of PKCS#8 encoding.
#[verifier::external_type_specification]
#[verifier::external_body]
pub struct ExPkcs8Error(rsa::pkcs8::Error);

/// The error of public key encoding and decoding.
#[verifier::external_type_specification]
#[verifier::external_body]
pub struct ExSpkiError(rsa::pkcs8::spki::Error);

/// The error of certificate generation.
#[verifier::external_type_specification]
#[verifier::external_body]
pub struct ExRcgenError(rcgen::Error);

/// The error of the operating system's TLS.
#[verifier::external_type_specification]
#[verifier::external_body]
pub struct ExTlsError(native_tls::Error);

/// Why an operation failed.
#[derive(Debug)]
pub enum Failure {
    /// A message of this library.
    Said(String),
    /// The phone's file service answered with this status.
    Status(u64),
    /// The property list reader or writer failed.
    Plist(plist::Error),
    /// Bytes that should be text are not UTF-8.
    Utf8(std::str::Utf8Error),
    /// Reading or writing failed.
    Io(std::io::Error),
    /// An RSA key could not be made.
    Rsa(rsa::Error),
    /// A private key could not be encoded.
    Pkcs8(rsa::pkcs8::Error),
    /// A public key could not be decoded or encoded.
    Spki(rsa::pkcs8::spki::Error),
    /// A certificate could not be made.
    Rcgen(rcgen::Error),
    /// TLS could not be set up.
    Tls(native_tls::Error),
    /// What was being done when another failure stopped it.
    Under(String, Box<Failure>),
}

/// The text that `plist::Error` prints. Nothing is stated of it: it may be what the
/// operating system says, in the language of the machine.
#[verifier::external_body]
fn plist_error_text(error: &plist::Error) -> (text: String) {
    error.to_string()
}

/// What `std::str::Utf8Error` says.
pub uninterp spec fn utf8_words(error: std::str::Utf8Error) -> Seq<char>;

/// The text that `std::str::Utf8Error` prints, a function of the error.
#[verifier::external_body]
fn utf8_error_text(error: &std::str::Utf8Error) -> (text: String)
    ensures
        text@ == utf8_words(*error),
{
    error.to_string()
}

/// The text that `std::io::Error` prints. Nothing is stated of it: it may be what the
/// operating system says, in the language of the machine.
#[verifier::external_body]
fn io_error_text(error: &std::io::Error) -> (text: String) {
    error.to_string()
}

/// What `rsa::Error` says.
pub uninterp spec fn rsa_words(error: rsa::Error) -> Seq<char>;

/// The text that `rsa::Error` prints, a function of the error.
#[verifier::external_body]
fn rsa_error_text(error: &rsa::Error) -> (text: String)
    ensures
        text@ == rsa_words(*error),
{
    error.to_string()
}

/// What `rsa::pkcs8::Error` says.
pub uninterp spec fn pkcs8_words(error: rsa::pkcs8::Error) -> Seq<char>;

/// The text that `rsa::pkcs8::Error` prints, a function of the error.
#[verifier::external_body]
fn pkcs8_error_text(error: &rsa::pkcs8::Error) -> (text: String)
    ensures
        text@ == pkcs8_words(*error),
{
    error.to_string()
}

/// What `rsa::pkcs8::spki::Error` says.
pub uninterp spec fn spki_words(error: rsa::pkcs8::spki::Error) -> Seq<char>;

/// The text that `rsa::pkcs8::spki::Error` prints, a function of the error.
#[verifier::external_body]
fn spki_error_text(error: &rsa::pkcs8::spki::Error) -> (text: String)
    ensures
        text@ == spki_words(*error),
{
    error.to_string()
}

/// What `rcgen::Error` says.
pub uninterp spec fn rcgen_words(error: rcgen::Error) -> Seq<char>;

/// The text that `rcgen::Error` prints, a function of the error.
#[verifier::external_body]
fn rcgen_error_text(error: &rcgen::Error) -> (text: String)
    ensures
        text@ == rcgen_words(*error),
{
    error.to_string()
}

/// The text that `native_tls::Error` prints. Nothing is stated of it: it may be what the
/// operating system says, in the language of the machine.
#[verifier::external_body]
fn tls_error_text(error: &native_tls::Error) -> (text: String) {
    error.to_string()
}

impl Failure {
    /// The failure carries exactly this message and nothing else.
    pub open spec fn says(self, text: Seq<char>) -> bool {
        self matches Failure::Said(said) && said@ == text
    }

    /// The failure is `inner`, met while doing what `context` says.
    pub open spec fn under(self, context: Seq<char>, inner: Failure) -> bool {
        self matches Failure::Under(said, found) && said@ == context && *found == inner
    }

    /// The failure is the message `text`, met while doing what `context` says.
    pub open spec fn says_under(self, context: Seq<char>, text: Seq<char>) -> bool {
        self matches Failure::Under(said, found) && said@ == context && found.says(text)
    }

    /// The whole text, outermost context first, unless the operating system has a word in
    /// it.
    pub open spec fn shown(self) -> Option<Seq<char>>
        decreases self,
    {
        match self {
            Failure::Said(said) => Some(said@),
            Failure::Status(n) => Some("AFC status "@ + crate::text::decimal(n as nat)),
            Failure::Utf8(error) => Some(utf8_words(error)),
            Failure::Rsa(error) => Some(rsa_words(error)),
            Failure::Pkcs8(error) => Some(pkcs8_words(error)),
            Failure::Spki(error) => Some(spki_words(error)),
            Failure::Rcgen(error) => Some(rcgen_words(error)),
            Failure::Plist(_) | Failure::Io(_) | Failure::Tls(_) => None,
            Failure::Under(said, inner) => match inner.shown() {
                Some(rest) => Some(said@ + ": "@ + rest),
                None => None,
            },
        }
    }

    /// The text is that of the failure, outermost context first; where the operating
    /// system has a word in it, what stands before that word.
    pub open spec fn tells(self, text: Seq<char>) -> bool
        decreases self,
    {
        match self {
            Failure::Plist(_) | Failure::Io(_) | Failure::Tls(_) => true,
            Failure::Under(said, inner) => (said@ + ": "@).is_prefix_of(text) && inner.tells(
                text.skip((said@ + ": "@).len() as int),
            ),
            _ => self.shown() == Some(text),
        }
    }

    /// The outermost text, unless it is the operating system's.
    pub open spec fn head(self) -> Option<Seq<char>> {
        match self {
            Failure::Under(said, _) => Some(said@),
            _ => self.shown(),
        }
    }

    /// A failure with the given message.
    pub fn said(text: &str) -> (failure: Failure)
        ensures
            failure.says(text@),
    {
        Failure::Said(text.to_owned())
    }

    /// This failure, met while doing what `context` says.
    pub fn context(self, context: &str) -> (failure: Failure)
        ensures
            failure.under(context@, self),
    {
        Failure::Under(context.to_owned(), Box::new(self))
    }

    /// The outermost text.
    pub fn headline(&self) -> (text: String)
        ensures
            self.head() matches Some(head) ==> text@ == head,
    {
        match self {
            Failure::Under(said, _) => said.clone(),
            _ => self.message(),
        }
    }

    /// The text that is shown to the user. Where the failure comes from another
    /// library, its own text stands at the end.
    pub fn message(&self) -> (text: String)
        ensures
            self.shown() matches Some(shown) ==> text@ == shown,
            self.tells(text@),
        decreases self,
    {
        match self {
            Failure::Said(said) => said.clone(),
            Failure::Status(n) => "AFC status ".to_owned().concat(
                crate::text::decimal_text(*n).as_str(),
            ),
            Failure::Plist(error) => plist_error_text(error),
            Failure::Utf8(error) => utf8_error_text(error),
            Failure::Io(error) => io_error_text(error),
            Failure::Rsa(error) => rsa_error_text(error),
            Failure::Pkcs8(error) => pkcs8_error_text(error),
            Failure::Spki(error) => spki_error_text(error),
            Failure::Rcgen(error) => rcgen_error_text(error),
            Failure::Tls(error) => tls_error_text(error),
            Failure::Under(said, inner) => {
                let rest: String = inner.message();
                let text: String = said.clone().concat(": ").concat(rest.as_str());
                assert(said@ + ": "@ =~= text@.take((said@ + ": "@).len() as int));
                assert(text@.skip((said@ + ": "@).len() as int) =~= rest@);
                text
            },
        }
    }
}

/// A failure is told with everything that was being done when it happened, the
/// outermost first: its text is the context, a colon, and the text of what happened. A
/// message is told as it is, and a status by its number.
pub proof fn failures_are_told_with_their_context(failure: Failure, text: String)
    requires
        call_ensures(Failure::message, (&failure,), text),
    ensures
        failure matches Failure::Said(said) ==> text@ == said@,
        failure matches Failure::Status(n) ==> text@ == "AFC status "@ + crate::text::decimal(
            n as nat,
        ),
        failure matches Failure::Under(context, inner) ==> exists|rest: Seq<char>|
            text@ == #[trigger] (context@ + ": "@ + rest) && inner.tells(rest),
        failure matches Failure::Under(context, inner) ==> (*inner matches Failure::Said(said)
            ==> text@ == context@ + ": "@ + said@),
{
    if let Failure::Under(context, inner) = failure {
        let front = context@ + ": "@;
        let rest = text@.skip(front.len() as int);
        assert(text@ =~= front + rest);
        assert(inner.tells(rest));
        reveal_with_fuel(Failure::tells, 2);
        reveal_with_fuel(Failure::shown, 2);
    }
}

} // verus!
