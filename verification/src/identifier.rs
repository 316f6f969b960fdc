//! Names of catalogs and labels.
//!
//! - A catalog has a bare name, such as `my-repo`.
//! - A label has a bare name, such as `main` or `feature/x`.
//! - The storage form of both is `catalog:label`.
use crate::text;
use vstd::prelude::*;

verus! {

/// Why a name is rejected.
#[derive(Debug, Clone)]
pub enum IdentifierError {
    /// The name of a catalog is not valid.
    Catalog { code: &'static str, message: String },
    /// The name of a label is not valid.
    Label { code: &'static str, message: String },
    /// The storage form of a label is not valid.
    LabelId { code: &'static str, message: String },
}

/// The mathematical counterpart of [`IdentifierError`].
pub enum IdentifierErrorView {
    Catalog { code: Seq<char>, message: Seq<char> },
    Label { code: Seq<char>, message: Seq<char> },
    LabelId { code: Seq<char>, message: Seq<char> },
}

impl View for IdentifierError {
    type V = IdentifierErrorView;

    open spec fn view(&self) -> IdentifierErrorView {
        match *self {
            IdentifierError::Catalog { code, message } => IdentifierErrorView::Catalog {
                code: code@,
                message: message@,
            },
            IdentifierError::Label { code, message } => IdentifierErrorView::Label {
                code: code@,
                message: message@,
            },
            IdentifierError::LabelId { code, message } => IdentifierErrorView::LabelId {
                code: code@,
                message: message@,
            },
        }
    }
}

impl IdentifierErrorView {
    /// The code of the error.
    pub open spec fn code(self) -> Seq<char> {
        match self {
            IdentifierErrorView::Catalog { code, message } => code,
            IdentifierErrorView::Label { code, message } => code,
            IdentifierErrorView::LabelId { code, message } => code,
        }
    }

    /// The error as it is shown: what is wrong, in brackets, and the message.
    pub open spec fn shown(self) -> Seq<char> {
        match self {
            IdentifierErrorView::Catalog { code, message } => "[invalid_catalog] "@ + message,
            IdentifierErrorView::Label { code, message } => "[invalid_label] "@ + message,
            IdentifierErrorView::LabelId { code, message } => "[invalid_label_id] "@ + message,
        }
    }
}

impl IdentifierError {
    /// The code of the error.
    pub fn code(&self) -> (r: &'static str)
        ensures
            r@ == self@.code(),
    {
        match self {
            IdentifierError::Catalog { code, message: _ } => code,
            IdentifierError::Label { code, message: _ } => code,
            IdentifierError::LabelId { code, message: _ } => code,
        }
    }

    /// The error as it is shown: what is wrong, in brackets, and the message.
    pub fn to_string(&self) -> (r: String)
        ensures
            r@ == self@.shown(),
    {
        match self {
            IdentifierError::Catalog { code: _, message } => {
                let mut out = "[invalid_catalog] ".to_owned();
                out.append(message.as_str());
                out
            },
            IdentifierError::Label { code: _, message } => {
                let mut out = "[invalid_label] ".to_owned();
                out.append(message.as_str());
                out
            },
            IdentifierError::LabelId { code: _, message } => {
                let mut out = "[invalid_label_id] ".to_owned();
                out.append(message.as_str());
                out
            },
        }
    }
}

/// Most bytes that the name of a catalog may have.
pub const MAX_CATALOG_LENGTH: usize = 64;

/// Most bytes that the name of a label may have.
pub const MAX_LABEL_LENGTH: usize = 128;

/// A lower-case ASCII letter or a digit.
pub open spec fn name_char(c: char) -> bool {
    ('a' <= c && c <= 'z') || ('0' <= c && c <= '9')
}

/// An upper-case ASCII letter.
pub open spec fn upper_char(c: char) -> bool {
    'A' <= c && c <= 'Z'
}

/// A character that separates the parts of a label.
pub open spec fn label_separator(c: char) -> bool {
    c == '.' || c == '/' || c == '-' || c == '='
}

fn is_name_char(c: char) -> (r: bool)
    ensures
        r == name_char(c),
{
    ('a' <= c && c <= 'z') || ('0' <= c && c <= '9')
}

fn is_upper_char(c: char) -> (r: bool)
    ensures
        r == upper_char(c),
{
    'A' <= c && c <= 'Z'
}

fn is_label_separator(c: char) -> (r: bool)
    ensures
        r == label_separator(c),
{
    c == '.' || c == '/' || c == '-' || c == '='
}

/// An error about the name of a catalog.
pub open spec fn catalog_fault(code: Seq<char>, message: Seq<char>) -> Option<IdentifierErrorView> {
    Some(IdentifierErrorView::Catalog { code, message })
}

/// An error about the name of a label.
pub open spec fn label_fault(code: Seq<char>, message: Seq<char>) -> Option<IdentifierErrorView> {
    Some(IdentifierErrorView::Label { code, message })
}

/// What is wrong with the characters of a catalog's name from position `i` on.
pub open spec fn catalog_char_error(name: Seq<char>, i: int) -> Option<IdentifierErrorView>
    decreases name.len() - i,
{
    if i < 0 || i >= name.len() {
        None
    } else if name_char(name[i]) || name[i] == '-' {
        catalog_char_error(name, i + 1)
    } else if upper_char(name[i]) {
        catalog_fault(
            "catalog_uppercase"@,
            "Catalog name '"@ + name + "' contains uppercase letter '"@ + seq![name[i]]
                + "' at position "@ + text::decimal(i as nat) + ". Use lowercase only."@,
        )
    } else if name[i] == '_' {
        catalog_fault(
            "catalog_underscore"@,
            "Catalog name '"@ + name + "' contains underscore at position "@ + text::decimal(
                i as nat,
            ) + ". Use hyphens instead (e.g., 'my-repo' not 'my_repo')."@,
        )
    } else {
        catalog_fault(
            "catalog_invalid_char"@,
            "Catalog name '"@ + name + "' contains invalid character '"@ + seq![name[i]]
                + "' at position "@ + text::decimal(i as nat)
                + ". Only lowercase letters, digits, and hyphens are allowed."@,
        )
    }
}

/// What is wrong with the name of a catalog, if something is.
pub open spec fn catalog_error(name: Seq<char>) -> Option<IdentifierErrorView> {
    if name.len() == 0 {
        catalog_fault("catalog_empty"@, "Catalog name cannot be empty"@)
    } else if text::byte_len(name) > MAX_CATALOG_LENGTH {
        catalog_fault(
            "catalog_too_long"@,
            "Catalog name exceeds maximum length of "@ + text::decimal(MAX_CATALOG_LENGTH as nat)
                + " characters (got "@ + text::decimal(text::byte_len(name)) + " characters: '"@
                + name + "')"@,
        )
    } else if name[0] == '-' {
        catalog_fault(
            "catalog_leading_hyphen"@,
            "Catalog name '"@ + name + "' cannot start with a hyphen"@,
        )
    } else if name.last() == '-' {
        catalog_fault(
            "catalog_trailing_hyphen"@,
            "Catalog name '"@ + name + "' cannot end with a hyphen"@,
        )
    } else if text::has_part(name, "--"@) {
        catalog_fault(
            "catalog_consecutive_hyphens"@,
            "Catalog name '"@ + name + "' cannot contain consecutive hyphens"@,
        )
    } else {
        catalog_char_error(name, 0)
    }
}

/// A message of the form that speaks of a name.
fn about_name(before: &str, name: &str, after: &str) -> (r: String)
    ensures
        r@ == before@ + name@ + after@,
{
    let mut m = before.to_owned();
    m.append(name);
    m.append(after);
    m
}

/// A message of the form that speaks of a name and a position in it.
fn about_position(before: &str, name: &str, between: &str, i: usize, after: &str) -> (r: String)
    ensures
        r@ == before@ + name@ + between@ + text::decimal(i as nat) + after@,
{
    let mut m = about_name(before, name, between);
    text::push_decimal(&mut m, i as u64);
    m.append(after);
    m
}

/// The beginning of a message that speaks of a character of a name.
fn char_at(before: &str, name: &str, between: &str, c: char, i: usize) -> (r: String)
    ensures
        r@ == before@ + name@ + between@ + seq![c] + "' at position "@ + text::decimal(i as nat),
{
    let mut m = about_name(before, name, between);
    m.push(c);
    assert(m@ =~= before@ + name@ + between@ + seq![c]);
    m.append("' at position ");
    text::push_decimal(&mut m, i as u64);
    m
}

/// A message of the form that speaks of a character of a name.
fn about_char(before: &str, name: &str, between: &str, c: char, i: usize, after: &str) -> (r:
    String)
    ensures
        r@ == before@ + name@ + between@ + seq![c] + "' at position "@ + text::decimal(i as nat)
            + after@,
{
    let mut m = char_at(before, name, between, c, i);
    m.append(after);
    m
}

/// A message of the form that speaks of a name's length.
fn about_length(before: &str, max: usize, len: usize, name: &str) -> (r: String)
    ensures
        r@ == before@ + text::decimal(max as nat) + " characters (got "@ + text::decimal(len as nat)
            + " characters: '"@ + name@ + "')"@,
{
    let mut m = before.to_owned();
    text::push_decimal(&mut m, max as u64);
    m.append(" characters (got ");
    text::push_decimal(&mut m, len as u64);
    m.append(" characters: '");
    m.append(name);
    m.append("')");
    m
}

/// Checks the name of a catalog: lower-case letters and digits in parts that are separated
/// by single hyphens, and at most [`MAX_CATALOG_LENGTH`] bytes.
pub fn validate_catalog(name: &str) -> (r: Result<(), IdentifierError>)
    ensures
        match r {
            Ok(_) => catalog_error(name@) is None,
            Err(e) => catalog_error(name@) == Some(e@),
        },
{
    if name.is_empty() {
        return Err(
            IdentifierError::Catalog {
                code: "catalog_empty",
                message: "Catalog name cannot be empty".to_owned(),
            },
        );
    }
    let len: usize = text::len_in_bytes(name);
    if len > MAX_CATALOG_LENGTH {
        return Err(
            IdentifierError::Catalog {
                code: "catalog_too_long",
                message: about_length(
                    "Catalog name exceeds maximum length of ",
                    MAX_CATALOG_LENGTH,
                    len,
                    name,
                ),
            },
        );
    }
    if text::starts_with_char(name, '-') {
        return Err(
            IdentifierError::Catalog {
                code: "catalog_leading_hyphen",
                message: about_name("Catalog name '", name, "' cannot start with a hyphen"),
            },
        );
    }
    if text::ends_with_char(name, '-') {
        return Err(
            IdentifierError::Catalog {
                code: "catalog_trailing_hyphen",
                message: about_name("Catalog name '", name, "' cannot end with a hyphen"),
            },
        );
    }
    if text::contains(name, "--") {
        return Err(
            IdentifierError::Catalog {
                code: "catalog_consecutive_hyphens",
                message: about_name("Catalog name '", name, "' cannot contain consecutive hyphens"),
            },
        );
    }
    let cs = text::chars(name);
    let n: usize = cs.len();
    for i in 0..n
        invariant
            n == cs@.len(),
            cs@ == name@,
            name@.len() > 0,
            text::byte_len(name@) <= MAX_CATALOG_LENGTH,
            name@[0] != '-',
            name@.last() != '-',
            !text::has_part(name@, "--"@),
            catalog_char_error(name@, i as int) == catalog_char_error(name@, 0),
    {
        let c = cs[i];
        if !(is_name_char(c) || c == '-') {
            if is_upper_char(c) {
                return Err(
                    IdentifierError::Catalog {
                        code: "catalog_uppercase",
                        message: about_char(
                            "Catalog name '",
                            name,
                            "' contains uppercase letter '",
                            c,
                            i,
                            ". Use lowercase only.",
                        ),
                    },
                );
            }
            if c == '_' {
                return Err(
                    IdentifierError::Catalog {
                        code: "catalog_underscore",
                        message: about_position(
                            "Catalog name '",
                            name,
                            "' contains underscore at position ",
                            i,
                            ". Use hyphens instead (e.g., 'my-repo' not 'my_repo').",
                        ),
                    },
                );
            }
            return Err(
                IdentifierError::Catalog {
                    code: "catalog_invalid_char",
                    message: about_char(
                        "Catalog name '",
                        name,
                        "' contains invalid character '",
                        c,
                        i,
                        ". Only lowercase letters, digits, and hyphens are allowed.",
                    ),
                },
            );
        }
    }
    Ok(())
}

/// What is wrong with a label from position `i` on.
pub open spec fn label_char_error(name: Seq<char>, i: int) -> Option<IdentifierErrorView>
    decreases name.len() - i,
{
    if i < 0 {
        None
    } else if i >= name.len() {
        if name.len() == 0 || label_separator(name.last()) {
            label_fault(
                "label_trailing_separator"@,
                "Label '"@ + name + "' cannot end with a separator"@,
            )
        } else {
            None
        }
    } else if name_char(name[i]) {
        label_char_error(name, i + 1)
    } else if label_separator(name[i]) {
        if i == 0 || label_separator(name[i - 1]) {
            label_fault(
                "label_leading_separator"@,
                "Label '"@ + name + "' has a leading separator '"@ + seq![name[i]]
                    + "' at position "@ + text::decimal(i as nat),
            )
        } else {
            label_char_error(name, i + 1)
        }
    } else if upper_char(name[i]) {
        label_fault(
            "label_uppercase"@,
            "Label '"@ + name + "' contains uppercase letter '"@ + seq![name[i]]
                + "' at position "@ + text::decimal(i as nat) + ". Use lowercase only."@,
        )
    } else if name[i] == '_' {
        label_fault(
            "label_underscore"@,
            "Label '"@ + name + "' contains underscore at position "@ + text::decimal(i as nat)
                + ". Use hyphens or slashes instead."@,
        )
    } else {
        label_fault(
            "label_invalid_char"@,
            "Label '"@ + name + "' contains invalid character '"@ + seq![name[i]]
                + "' at position "@ + text::decimal(i as nat)
                + ". Allowed: lowercase letters, digits, '.', '/', '-', '='"@,
        )
    }
}

/// What is wrong with the characters of a label, if something is.
pub open spec fn payload_error(name: Seq<char>) -> Option<IdentifierErrorView> {
    if name.len() == 0 {
        label_fault("label_empty"@, "Label name cannot be empty"@)
    } else {
        label_char_error(name, 0)
    }
}

/// What is wrong with the name of a label, if something is.
pub open spec fn label_error(name: Seq<char>) -> Option<IdentifierErrorView> {
    if name.len() > 0 && text::byte_len(name) > MAX_LABEL_LENGTH {
        label_fault(
            "label_too_long"@,
            "Label name exceeds maximum length of "@ + text::decimal(MAX_LABEL_LENGTH as nat)
                + " characters (got "@ + text::decimal(text::byte_len(name)) + " characters: '"@
                + name + "')"@,
        )
    } else {
        payload_error(name)
    }
}

/// Checks the name of a label: lower-case letters and digits in parts that are separated by
/// single dots, slashes, hyphens or equals signs, and at most [`MAX_LABEL_LENGTH`] bytes.
pub fn validate_label(name: &str) -> (r: Result<(), IdentifierError>)
    ensures
        match r {
            Ok(_) => label_error(name@) is None,
            Err(e) => label_error(name@) == Some(e@),
        },
{
    if name.is_empty() {
        return Err(
            IdentifierError::Label {
                code: "label_empty",
                message: "Label name cannot be empty".to_owned(),
            },
        );
    }
    let len: usize = text::len_in_bytes(name);
    if len > MAX_LABEL_LENGTH {
        return Err(
            IdentifierError::Label {
                code: "label_too_long",
                message: about_length(
                    "Label name exceeds maximum length of ",
                    MAX_LABEL_LENGTH,
                    len,
                    name,
                ),
            },
        );
    }
    validate_label_payload(name)
}

/// Checks the characters of a label.
pub fn validate_label_payload(payload: &str) -> (r: Result<(), IdentifierError>)
    ensures
        match r {
            Ok(_) => payload_error(payload@) is None,
            Err(e) => payload_error(payload@) == Some(e@),
        },
{
    if payload.is_empty() {
        return Err(
            IdentifierError::Label {
                code: "label_empty",
                message: "Label name cannot be empty".to_owned(),
            },
        );
    }
    let cs = text::chars(payload);
    let n: usize = cs.len();
    for i in 0..n
        invariant
            n == cs@.len() > 0,
            cs@ == payload@,
            label_char_error(payload@, i as int) == label_char_error(payload@, 0),
    {
        let c = cs[i];
        if is_name_char(c) {
        } else if is_label_separator(c) {
            if i == 0 || is_label_separator(cs[i - 1]) {
                return Err(
                    IdentifierError::Label {
                        code: "label_leading_separator",
                        message: char_at("Label '", payload, "' has a leading separator '", c, i),
                    },
                );
            }
        } else if is_upper_char(c) {
            return Err(
                IdentifierError::Label {
                    code: "label_uppercase",
                    message: about_char(
                        "Label '",
                        payload,
                        "' contains uppercase letter '",
                        c,
                        i,
                        ". Use lowercase only.",
                    ),
                },
            );
        } else if c == '_' {
            return Err(
                IdentifierError::Label {
                    code: "label_underscore",
                    message: about_position(
                        "Label '",
                        payload,
                        "' contains underscore at position ",
                        i,
                        ". Use hyphens or slashes instead.",
                    ),
                },
            );
        } else {
            return Err(
                IdentifierError::Label {
                    code: "label_invalid_char",
                    message: about_char(
                        "Label '",
                        payload,
                        "' contains invalid character '",
                        c,
                        i,
                        ". Allowed: lowercase letters, digits, '.', '/', '-', '='",
                    ),
                },
            );
        }
    }
    if is_label_separator(cs[n - 1]) {
        return Err(
            IdentifierError::Label {
                code: "label_trailing_separator",
                message: about_name("Label '", payload, "' cannot end with a separator"),
            },
        );
    }
    Ok(())
}

/// The storage form of a label of a catalog.
pub open spec fn storage_form(catalog: Seq<char>, label: Seq<char>) -> Seq<char> {
    catalog + seq![':'] + label
}

/// A label of a catalog, with its storage form.
#[derive(Debug, PartialEq, Eq, Hash, PartialOrd, Ord)]
pub struct LabelId {
    catalog: String,
    label: String,
    combined: String,
}

impl LabelId {
    #[verifier::type_invariant]
    spec fn wf(self) -> bool {
        self.combined@ == storage_form(self.catalog@, self.label@)
    }
}

impl View for LabelId {
    type V = (Seq<char>, Seq<char>);

    closed spec fn view(&self) -> (Seq<char>, Seq<char>) {
        (self.catalog@, self.label@)
    }
}

impl Clone for LabelId {
    fn clone(&self) -> (r: Self)
        ensures
            r@ == self@,
    {
        proof {
            use_type_invariant(self);
        }
        LabelId {
            catalog: self.catalog.clone(),
            label: self.label.clone(),
            combined: self.combined.clone(),
        }
    }
}

/// What is wrong with a pair of names, if something is: the catalog is looked at first.
pub open spec fn pair_error(catalog: Seq<char>, label: Seq<char>) -> Option<IdentifierErrorView> {
    if let Some(e) = catalog_error(catalog) {
        Some(e)
    } else {
        label_error(label)
    }
}

/// What a storage form stands for: catalog and label, or what is wrong with it. The first
/// colon separates the two.
pub open spec fn parsed(s: Seq<char>) -> Result<(Seq<char>, Seq<char>), IdentifierErrorView> {
    let n = text::first_index(s, ':');
    if n >= s.len() {
        Err(
            IdentifierErrorView::LabelId {
                code: "label_id_missing_colon"@,
                message: "Label ID '"@ + s + "' must be in 'catalog:label' format"@,
            },
        )
    } else {
        let (catalog, label) = (s.take(n), text::after(s, n + 1));
        match pair_error(catalog, label) {
            Some(e) => Err(e),
            None => Ok((catalog, label)),
        }
    }
}

/// The storage form of a label of a catalog.
fn combine(catalog: &str, label: &str) -> (r: String)
    ensures
        r@ == storage_form(catalog@, label@),
{
    let mut out = catalog.to_owned();
    out.push(':');
    out.append(label);
    assert(out@ =~= storage_form(catalog@, label@));
    out
}

impl LabelId {
    /// A label of a catalog, if both names are valid.
    pub fn new(catalog: &str, label: &str) -> (r: Result<Self, IdentifierError>)
        ensures
            match r {
                Ok(id) => pair_error(catalog@, label@) is None && id@ == (catalog@, label@),
                Err(e) => pair_error(catalog@, label@) == Some(e@),
            },
    {
        if let Err(e) = validate_catalog(catalog) {
            return Err(e);
        }
        if let Err(e) = validate_label(label) {
            return Err(e);
        }
        Ok(LabelId::new_unchecked(catalog, label))
    }

    /// A label of a catalog, whose names are not looked at.
    pub fn new_unchecked(catalog: &str, label: &str) -> (r: Self)
        ensures
            r@ == (catalog@, label@),
    {
        LabelId {
            catalog: catalog.to_owned(),
            label: label.to_owned(),
            combined: combine(catalog, label),
        }
    }

    /// Reads a storage form.
    pub fn parse(s: &str) -> (r: Result<Self, IdentifierError>)
        ensures
            match r {
                Ok(id) => parsed(s@) == Ok::<_, IdentifierErrorView>(id@),
                Err(e) => parsed(s@) == Err::<(Seq<char>, Seq<char>), _>(e@),
            },
    {
        let cs = text::chars(s);
        let n: usize = text::find_char(&cs, ':');
        if n >= cs.len() {
            return Err(
                IdentifierError::LabelId {
                    code: "label_id_missing_colon",
                    message: about_name("Label ID '", s, "' must be in 'catalog:label' format"),
                },
            );
        }
        proof {
            text::lemma_first_index(s@, ':');
        }
        let catalog = text::string_of(vstd::slice::slice_subrange(cs.as_slice(), 0, n));
        let label = text::string_of(vstd::slice::slice_subrange(cs.as_slice(), n + 1, cs.len()));
        assert(catalog@ =~= s@.take(n as int));
        assert(label@ =~= text::after(s@, n + 1));
        LabelId::new(catalog.as_str(), label.as_str())
    }

    /// The name of the catalog.
    pub fn catalog(&self) -> (r: &str)
        ensures
            r@ == self@.0,
    {
        self.catalog.as_str()
    }

    /// The name of the label.
    pub fn label(&self) -> (r: &str)
        ensures
            r@ == self@.1,
    {
        self.label.as_str()
    }

    /// The storage form.
    pub fn as_str(&self) -> (r: &str)
        ensures
            r@ == storage_form(self@.0, self@.1),
    {
        proof {
            use_type_invariant(self);
        }
        self.combined.as_str()
    }

    /// The storage form as a string of its own.
    pub fn to_string(&self) -> (r: String)
        ensures
            r@ == storage_form(self@.0, self@.1),
    {
        self.as_str().to_owned()
    }
}

impl std::str::FromStr for LabelId {
    type Err = IdentifierError;

    fn from_str(s: &str) -> (r: Result<Self, IdentifierError>)
        ensures
            match r {
                Ok(id) => parsed(s@) == Ok::<_, IdentifierErrorView>(id@),
                Err(e) => parsed(s@) == Err::<(Seq<char>, Seq<char>), _>(e@),
            },
    {
        LabelId::parse(s)
    }
}

impl AsRef<str> for LabelId {
    fn as_ref(&self) -> (r: &str)
        ensures
            r@ == storage_form(self@.0, self@.1),
    {
        self.as_str()
    }
}

impl std::ops::Deref for LabelId {
    type Target = str;

    fn deref(&self) -> (r: &str)
        ensures
            r@ == storage_form(self@.0, self@.1),
    {
        self.as_str()
    }
}

/// The storage form of a label of a catalog, if both names are valid.
pub fn compute_label_id(catalog: &str, label: &str) -> (r: Result<String, IdentifierError>)
    ensures
        match r {
            Ok(id) => pair_error(catalog@, label@) is None && id@ == storage_form(catalog@, label@),
            Err(e) => pair_error(catalog@, label@) == Some(e@),
        },
{
    if let Err(e) = validate_catalog(catalog) {
        return Err(e);
    }
    if let Err(e) = validate_label(label) {
        return Err(e);
    }
    Ok(combine(catalog, label))
}

/// Letters and digits in parts that are separated by single separators: the text is not
/// empty, begins and ends with a letter or digit, and no two separators stand together.
pub open spec fn segmented(s: Seq<char>, separator: spec_fn(char) -> bool) -> bool {
    &&& s.len() > 0
    &&& name_char(s[0])
    &&& name_char(s.last())
    &&& forall|i: int| 0 <= i < s.len() ==> name_char(#[trigger] s[i]) || separator(s[i])
    &&& forall|i: int, j: int|
        0 <= i && j == i + 1 && j < s.len() ==> name_char(#[trigger] s[i]) || name_char(
            #[trigger] s[j],
        )
}

proof fn lemma_catalog_chars(name: Seq<char>, i: int)
    requires
        0 <= i,
    ensures
        catalog_char_error(name, i) is None <==> forall|j: int|
            i <= j < name.len() ==> name_char(#[trigger] name[j]) || name[j] == '-',
    decreases name.len() - i,
{
    if i < name.len() && (name_char(name[i]) || name[i] == '-') {
        lemma_catalog_chars(name, i + 1);
    }
}

/// The names that a catalog may have are exactly those of lower-case letters and digits in
/// parts that are separated by single hyphens, of at most [`MAX_CATALOG_LENGTH`] bytes.
pub proof fn valid_catalogs(name: Seq<char>)
    ensures
        catalog_error(name) is None <==> segmented(name, |c: char| c == '-') && text::byte_len(name)
            <= MAX_CATALOG_LENGTH,
{
    lemma_catalog_chars(name, 0);
    reveal_strlit("--");
    let hyphens = "--"@;
    if catalog_error(name) is None {
        assert forall|i: int, j: int| 0 <= i && j == i + 1 && j < name.len() implies name_char(
            #[trigger] name[i],
        ) || name_char(#[trigger] name[j]) by {
            if name[i] == '-' && name[j] == '-' {
                assert(name.subrange(i, i + 2) =~= hyphens);
                assert(text::occurs_at(name, hyphens, i));
            }
        }
    }
    if segmented(name, |c: char| c == '-') {
        if text::has_part(name, hyphens) {
            let i = choose|i: int| text::occurs_at(name, hyphens, i);
            assert(name[i] == name.subrange(i, i + 2)[0]);
            assert(name[i + 1] == name.subrange(i, i + 2)[1]);
        }
    }
}

proof fn lemma_label_chars(name: Seq<char>, i: int)
    requires
        0 <= i <= name.len(),
        name.len() > 0,
        i > 0 ==> name_char(name[i - 1]) || label_separator(name[i - 1]),
    ensures
        label_char_error(name, i) is None <==> {
            &&& forall|j: int|
                i <= j < name.len() ==> name_char(#[trigger] name[j]) || label_separator(name[j])
            &&& name_char(name.last())
            &&& (i == 0 ==> name_char(name[0]))
            &&& forall|j: int, k: int|
                i <= k && 0 <= j && k == j + 1 && k < name.len() ==> name_char(#[trigger] name[j])
                    || name_char(#[trigger] name[k])
        },
    decreases name.len() - i,
{
    if i < name.len() {
        let here = forall|j: int, k: int|
            i <= k && 0 <= j && k == j + 1 && k < name.len() ==> name_char(#[trigger] name[j])
                || name_char(#[trigger] name[k]);
        if name_char(name[i]) {
            lemma_label_chars(name, i + 1);
        } else if label_separator(name[i]) {
            if i > 0 && !label_separator(name[i - 1]) {
                lemma_label_chars(name, i + 1);
            } else if i > 0 {
                assert(!here) by {
                    assert(!name_char(name[i - 1]) && !name_char(name[i]));
                }
            }
        }
    } else {
        assert(name.last() == name[name.len() - 1]);
    }
}

/// The names that a label may have are exactly those of lower-case letters and digits in
/// parts that are separated by single dots, slashes, hyphens or equals signs, of at most
/// [`MAX_LABEL_LENGTH`] bytes.
pub proof fn valid_labels(name: Seq<char>)
    ensures
        label_error(name) is None <==> segmented(name, |c: char| label_separator(c))
            && text::byte_len(name) <= MAX_LABEL_LENGTH,
{
    if name.len() > 0 {
        lemma_label_chars(name, 0);
    }
}

/// Reading the storage form of a valid label gives its names back.
pub proof fn parsing_undoes_composing(catalog: Seq<char>, label: Seq<char>)
    requires
        pair_error(catalog, label) is None,
    ensures
        parsed(storage_form(catalog, label)) == Ok::<_, IdentifierErrorView>((catalog, label)),
{
    let s = storage_form(catalog, label);
    let n = catalog.len() as int;
    valid_catalogs(catalog);
    assert forall|i: int| 0 <= i < n implies s[i] != ':' by {
        assert(s[i] == catalog[i]);
    }
    text::lemma_first_index_is(s, ':', n);
    assert(s.take(n) =~= catalog);
    assert(text::after(s, n + 1) =~= label);
}

/// What is read from a storage form composes to that same form.
pub proof fn composing_undoes_parsing(s: Seq<char>)
    requires
        parsed(s) is Ok,
    ensures
        storage_form(parsed(s)->Ok_0.0, parsed(s)->Ok_0.1) == s,
        pair_error(parsed(s)->Ok_0.0, parsed(s)->Ok_0.1) is None,
{
    text::lemma_first_index(s, ':');
    let n = text::first_index(s, ':');
    assert(s =~= s.take(n) + seq![':'] + text::after(s, n + 1));
}

/// A catalog's name is accepted exactly if it has one to 64 bytes, all of them lower-case letters,
/// digits and hyphens, with no hyphen at either end and no two of them together.
pub proof fn accepted_catalog_names(name: Seq<char>)
    ensures
        catalog_error(name) is None <==> {
            &&& name.len() > 0
            &&& text::byte_len(name) <= 64
            &&& forall|i: int|
                0 <= i < name.len() ==> ('a' <= #[trigger] name[i] <= 'z') || ('0' <= name[i]
                    <= '9') || name[i] == '-'
            &&& name[0] != '-'
            &&& name.last() != '-'
            &&& forall|i: int, j: int|
                0 <= i && j == i + 1 && j < name.len() ==> !(#[trigger] name[i] == '-'
                    && #[trigger] name[j] == '-')
        },
{
    valid_catalogs(name);
    if name.len() > 0 {
        assert(name.last() == name[name.len() - 1]);
    }
}

/// A label's name is accepted exactly if it has one to 128 bytes, all of them lower-case letters,
/// digits, dots, slashes, hyphens and equals signs, and begins and ends with a letter or digit, as
/// does every part between two of the others.
pub proof fn accepted_label_names(name: Seq<char>)
    ensures
        label_error(name) is None <==> {
            let plain = |c: char| ('a' <= c && c <= 'z') || ('0' <= c && c <= '9');
            &&& name.len() > 0
            &&& text::byte_len(name) <= 128
            &&& forall|i: int|
                0 <= i < name.len() ==> plain(#[trigger] name[i]) || name[i] == '.' || name[i] == '/'
                    || name[i] == '-' || name[i] == '='
            &&& plain(name[0])
            &&& plain(name.last())
            &&& forall|i: int, j: int|
                0 <= i && j == i + 1 && j < name.len() ==> plain(#[trigger] name[i]) || plain(
                    #[trigger] name[j],
                )
        },
{
    valid_labels(name);
    let plain = |c: char| ('a' <= c && c <= 'z') || ('0' <= c && c <= '9');
    assert forall|c: char| #[trigger] plain(c) == name_char(c) by {}
    assert forall|c: char| #[trigger] name_char(c) == plain(c) by {}
    let separator = |c: char| label_separator(c);
    assert forall|i: int| 0 <= i < name.len() implies (name_char(#[trigger] name[i]) || separator(
        name[i],
    )) == (plain(name[i]) || name[i] == '.' || name[i] == '/' || name[i] == '-' || name[i]
        == '=') by {}
}

/// What is wrong with a catalog's name is told by a code: the first thing in this order.
pub proof fn catalog_faults_have_codes(name: Seq<char>, i: int)
    ensures
        name.len() == 0 ==> (catalog_error(name)->0).code() == "catalog_empty"@,
        name.len() > 0 && text::byte_len(name) > 64 ==> (catalog_error(name)->0).code()
            == "catalog_too_long"@,
        name.len() > 0 && text::byte_len(name) <= 64 && name[0] == '-' ==> (catalog_error(
            name,
        )->0).code() == "catalog_leading_hyphen"@,
        name.len() > 0 && text::byte_len(name) <= 64 && name[0] != '-' && name.last() == '-' ==> (
        catalog_error(name)->0).code() == "catalog_trailing_hyphen"@,
        ({
            &&& text::byte_len(name) <= 64
            &&& 0 <= i < name.len()
            &&& name[0] != '-'
            &&& name.last() != '-'
            &&& !text::has_part(name, "--"@)
            &&& forall|j: int|
                0 <= j < i ==> ('a' <= #[trigger] name[j] <= 'z') || ('0' <= name[j] <= '9')
                    || name[j] == '-'
        }) ==> {
            &&& 'A' <= name[i] <= 'Z' ==> (catalog_error(name)->0).code() == "catalog_uppercase"@
            &&& name[i] == '_' ==> (catalog_error(name)->0).code() == "catalog_underscore"@
            &&& name[i] == ' ' || name[i] == '/' || name[i] == ':' || name[i] == '.' ==> (
            catalog_error(name)->0).code() == "catalog_invalid_char"@
        },
{
    if 0 <= i < name.len() && (forall|j: int|
        0 <= j < i ==> ('a' <= #[trigger] name[j] <= 'z') || ('0' <= name[j] <= '9') || name[j]
            == '-') {
        lemma_catalog_char_at(name, 0, i);
    }
}

proof fn lemma_catalog_char_at(name: Seq<char>, k: int, i: int)
    requires
        0 <= k <= i < name.len(),
        forall|j: int|
            0 <= j < i ==> ('a' <= #[trigger] name[j] <= 'z') || ('0' <= name[j] <= '9') || name[j]
                == '-',
    ensures
        catalog_char_error(name, k) == catalog_char_error(name, i),
    decreases i - k,
{
    if k < i {
        assert(name_char(name[k]) || name[k] == '-');
        lemma_catalog_char_at(name, k + 1, i);
    }
}

/// What is wrong with a label's name is told by a code.
pub proof fn label_faults_have_codes(name: Seq<char>, i: int)
    requires
        text::byte_len(name) <= 128,
        0 <= i < name.len(),
        forall|j: int|
            0 <= j < i ==> ('a' <= #[trigger] name[j] <= 'z') || ('0' <= name[j] <= '9'),
    ensures
        'A' <= name[i] <= 'Z' ==> (label_error(name)->0).code() == "label_uppercase"@,
        name[i] == '_' ==> (label_error(name)->0).code() == "label_underscore"@,
        name[i] == ':' || name[i] == ' ' || name[i] == '@' ==> (label_error(name)->0).code()
            == "label_invalid_char"@,
        i == 0 && (name[i] == '.' || name[i] == '/' || name[i] == '-' || name[i] == '=') ==> (
        label_error(name)->0).code() == "label_leading_separator"@,
        0 < i && i == name.len() - 1 && (name[i] == '.' || name[i] == '/' || name[i] == '-' || name[i]
            == '=') ==> (label_error(name)->0).code() == "label_trailing_separator"@,
{
    lemma_label_char_at(name, 0, i);
    if i > 0 {
        assert(name_char(name[i - 1]));
        assert(i == name.len() - 1 ==> label_char_error(name, i + 1) == if label_separator(
            name[i],
        ) {
            label_fault(
                "label_trailing_separator"@,
                "Label '"@ + name + "' cannot end with a separator"@,
            )
        } else {
            None
        });
    }
}

proof fn lemma_label_char_at(name: Seq<char>, k: int, i: int)
    requires
        0 <= k <= i < name.len(),
        forall|j: int|
            0 <= j < i ==> ('a' <= #[trigger] name[j] <= 'z') || ('0' <= name[j] <= '9'),
    ensures
        label_char_error(name, k) == label_char_error(name, i),
    decreases i - k,
{
    if k < i {
        assert(name_char(name[k]));
        lemma_label_char_at(name, k + 1, i);
    }
}

/// Catalog and label stand before and behind the first colon; without a colon there is no label.
pub proof fn label_ids_are_split_at_the_first_colon(catalog: Seq<char>, label: Seq<char>)
    requires
        !catalog.contains(':'),
    ensures
        parsed(catalog + seq![':'] + label) matches Ok(pair) ==> pair == (catalog, label),
        parsed(catalog + seq![':'] + label) is Ok <==> catalog_error(catalog) is None
            && label_error(label) is None,
        parsed(catalog) matches Err(e) && e.code() == "label_id_missing_colon"@,
{
    let s = catalog + seq![':'] + label;
    let n = catalog.len() as int;
    assert forall|i: int| 0 <= i < n implies s[i] != ':' by {
        assert(s[i] == catalog[i]);
        assert(catalog.contains(catalog[i]));
    }
    text::lemma_first_index_is(s, ':', n);
    assert(s.take(n) =~= catalog);
    assert(text::after(s, n + 1) =~= label);
    text::lemma_first_index(catalog, ':');
    if text::first_index(catalog, ':') < n {
        assert(catalog.contains(catalog[text::first_index(catalog, ':')]));
    }
}

}
