//! The legal-notice page: configuration, contact fields, and the page built from them.
use vstd::prelude::*;
use crate::template::{
    substitute, missing_tokens, substituted, missing, token_shaped, inert, inert_rules, occurs_in,
    lemma_no_token_left, is_token_char,
};
use crate::text::{
    trim, reverse, find_char, trimmed, reversed, has_char, first_index_of, lemma_first_index_of,
};

verus! {

/// Marks where the reversed user part of the e-mail address goes.
pub const EMAIL_USER_REV: &'static str = "__EMAIL_USER_REV__";

/// Marks where the reversed domain part of the e-mail address goes.
pub const EMAIL_DOMAIN_REV: &'static str = "__EMAIL_DOMAIN_REV__";

/// Marks where the plain e-mail address goes.
pub const EMAIL_NOSCRIPT: &'static str = "__EMAIL_NOSCRIPT__";

/// Marks where the reversed phone number goes.
pub const PHONE_REV: &'static str = "__PHONE_REV__";

/// Marks where the plain phone number goes.
pub const PHONE_NOSCRIPT: &'static str = "__PHONE_NOSCRIPT__";

/// Marks where the reversed name goes.
pub const NAME_REV: &'static str = "__NAME_REV__";

/// Marks where the plain name goes.
pub const NAME_NOSCRIPT: &'static str = "__NAME_NOSCRIPT__";

/// The placeholder tokens, in the order in which they are substituted.
pub open spec fn placeholders() -> Seq<Seq<char>> {
    seq![
        EMAIL_USER_REV@,
        EMAIL_DOMAIN_REV@,
        EMAIL_NOSCRIPT@,
        PHONE_REV@,
        PHONE_NOSCRIPT@,
        NAME_REV@,
        NAME_NOSCRIPT@,
    ]
}

/// The placeholder tokens, in the order in which they are substituted.
pub fn placeholder_tokens() -> (r: Vec<String>)
    ensures
        r.deep_view() == placeholders(),
{
    let r = vec![
        String::from_str(EMAIL_USER_REV),
        String::from_str(EMAIL_DOMAIN_REV),
        String::from_str(EMAIL_NOSCRIPT),
        String::from_str(PHONE_REV),
        String::from_str(PHONE_NOSCRIPT),
        String::from_str(NAME_REV),
        String::from_str(NAME_NOSCRIPT),
    ];
    assert(r.deep_view() =~= placeholders());
    r
}

/// Every placeholder has the shape `__NAME__`.
pub proof fn lemma_placeholders_shaped()
    ensures
        forall|k: int| 0 <= k < placeholders().len() ==> token_shaped(#[trigger] placeholders()[k]),
{
    reveal_strlit("__EMAIL_USER_REV__");
    reveal_strlit("__EMAIL_DOMAIN_REV__");
    reveal_strlit("__EMAIL_NOSCRIPT__");
    reveal_strlit("__PHONE_REV__");
    reveal_strlit("__PHONE_NOSCRIPT__");
    reveal_strlit("__NAME_REV__");
    reveal_strlit("__NAME_NOSCRIPT__");
    assert(token_shaped(EMAIL_USER_REV@));
    assert(token_shaped(EMAIL_DOMAIN_REV@));
    assert(token_shaped(EMAIL_NOSCRIPT@));
    assert(token_shaped(PHONE_REV@));
    assert(token_shaped(PHONE_NOSCRIPT@));
    assert(token_shaped(NAME_REV@));
    assert(token_shaped(NAME_NOSCRIPT@));
    assert forall|k: int| 0 <= k < placeholders().len() implies token_shaped(
        #[trigger] placeholders()[k],
    ) by {
        if k == 0 {
        } else if k == 1 {
        } else if k == 2 {
        } else if k == 3 {
        } else if k == 4 {
        } else if k == 5 {
        } else {
        }
    }
}

/// Names the variable that gives the path of the e-mail file.
pub const EMAIL_FILE_VAR: &'static str = "IMPRESSUM_EMAIL_FILE";

/// Names the variable that gives the path of the phone file.
pub const PHONE_FILE_VAR: &'static str = "IMPRESSUM_PHONE_FILE";

/// Names the variable that gives the path of the name file.
pub const NAME_FILE_VAR: &'static str = "IMPRESSUM_NAME_FILE";

/// Names the variable that gives the path of the template file.
pub const TEMPLATE_FILE_VAR: &'static str = "IMPRESSUM_TEMPLATE_FILE";

/// Names the variable that gives the path of the output file.
pub const OUTPUT_FILE_VAR: &'static str = "IMPRESSUM_OUTPUT_FILE";

/// Where the page is written when no output path is configured.
pub const DEFAULT_OUTPUT_PATH: &'static str = "/run/impressum/impressum.html";

/// Permission bits of the written page: owner read/write, group and others read.
pub const OUTPUT_MODE: u32 = 0o644;

/// Why a run fails.
#[derive(Debug)]
pub enum GenerateError {
    /// A required configuration value, named here, is absent.
    MissingConfig(String),
    /// The input file at this path cannot be read.
    InputIo(String),
    /// The contact file at this path holds only white space.
    EmptyField(String),
    /// The e-mail address has no `@`.
    MalformedEmail,
    /// The page cannot be written or its permissions set; the cause is given.
    OutputIo(String),
}

/// Where the inputs are read and the page is written.
pub struct Config {
    pub email_file: String,
    pub phone_file: String,
    pub name_file: String,
    pub template_file: String,
    pub output_file: String,
}

/// The name of the first required value that is absent, in the order
/// e-mail, phone, name, template.
pub open spec fn first_missing(
    email_file: Option<String>,
    phone_file: Option<String>,
    name_file: Option<String>,
    template_file: Option<String>,
) -> Option<Seq<char>> {
    if email_file is None {
        Some(EMAIL_FILE_VAR@)
    } else if phone_file is None {
        Some(PHONE_FILE_VAR@)
    } else if name_file is None {
        Some(NAME_FILE_VAR@)
    } else if template_file is None {
        Some(TEMPLATE_FILE_VAR@)
    } else {
        None
    }
}

impl Config {
    /// Resolves the configuration from the values given: the four input paths
    /// are required, the output path falls back to `DEFAULT_OUTPUT_PATH`.
    pub fn resolve(
        email_file: Option<String>,
        phone_file: Option<String>,
        name_file: Option<String>,
        template_file: Option<String>,
        output_file: Option<String>,
    ) -> (r: Result<Config, GenerateError>)
        ensures
            r is Ok <==> first_missing(email_file, phone_file, name_file, template_file) is None,
            r matches Ok(c) ==> {
                &&& c.email_file == email_file->0
                &&& c.phone_file == phone_file->0
                &&& c.name_file == name_file->0
                &&& c.template_file == template_file->0
                &&& c.output_file@ == (match output_file {
                    Some(o) => o@,
                    None => DEFAULT_OUTPUT_PATH@,
                })
            },
            r matches Err(e) ==> (e matches GenerateError::MissingConfig(key) && key@
                == first_missing(email_file, phone_file, name_file, template_file)->0),
    {
        let email_file = match email_file {
            Some(v) => v,
            None => return Err(GenerateError::MissingConfig(String::from_str(EMAIL_FILE_VAR))),
        };
        let phone_file = match phone_file {
            Some(v) => v,
            None => return Err(GenerateError::MissingConfig(String::from_str(PHONE_FILE_VAR))),
        };
        let name_file = match name_file {
            Some(v) => v,
            None => return Err(GenerateError::MissingConfig(String::from_str(NAME_FILE_VAR))),
        };
        let template_file = match template_file {
            Some(v) => v,
            None => return Err(GenerateError::MissingConfig(String::from_str(TEMPLATE_FILE_VAR))),
        };
        let output_file = match output_file {
            Some(v) => v,
            None => String::from_str(DEFAULT_OUTPUT_PATH),
        };
        Ok(Config { email_file, phone_file, name_file, template_file, output_file })
    }
}

/// The contact field held in a file: its content, trimmed. Fails, naming the
/// file, where nothing but white space is left.
pub fn validate_field(content: &str, path: &str) -> (r: Result<String, GenerateError>)
    ensures
        r is Ok <==> trimmed(content@).len() > 0,
        r matches Ok(v) ==> v@ == trimmed(content@),
        r matches Err(e) ==> (e matches GenerateError::EmptyField(p) && p@ == path@),
{
    let v = trim(content);
    if v.as_str().unicode_len() == 0 {
        Err(GenerateError::EmptyField(String::from_str(path)))
    } else {
        Ok(v)
    }
}

/// The part of an e-mail address before its first `@`.
pub open spec fn user_part(email: Seq<char>) -> Seq<char> {
    email.subrange(0, first_index_of(email, '@'))
}

/// The part of an e-mail address after its first `@`.
pub open spec fn domain_part(email: Seq<char>) -> Seq<char> {
    email.subrange(first_index_of(email, '@') + 1, email.len() as int)
}

/// What each placeholder is replaced by, in the order of `placeholders()`.
pub open spec fn replacements(email: Seq<char>, phone: Seq<char>, name: Seq<char>) -> Seq<Seq<char>> {
    seq![
        reversed(user_part(email)),
        reversed(domain_part(email)),
        email,
        reversed(phone),
        phone,
        reversed(name),
        name,
    ]
}

/// What each placeholder is replaced by, from the trimmed contact fields.
/// Fails where the e-mail address has no `@`.
pub fn replacement_values(email: &str, phone: &str, name: &str) -> (r: Result<Vec<String>, GenerateError>)
    ensures
        r is Ok <==> has_char(email@, '@'),
        r matches Ok(v) ==> v.deep_view() == replacements(email@, phone@, name@),
        r matches Err(e) ==> e is MalformedEmail,
{
    let at = match find_char(email, '@') {
        Some(i) => i,
        None => return Err(GenerateError::MalformedEmail),
    };
    let n = email.unicode_len();
    let user = email.substring_char(0, at);
    let domain = email.substring_char(at + 1, n);
    let v = vec![
        reverse(user),
        reverse(domain),
        String::from_str(email),
        reverse(phone),
        String::from_str(phone),
        reverse(name),
        String::from_str(name),
    ];
    assert(v.deep_view() =~= replacements(email@, phone@, name@));
    Ok(v)
}

/// The placeholders that `template` lacks, in their order.
pub fn missing_placeholders(template: &str) -> (r: Vec<String>)
    ensures
        r.deep_view() == missing(template@, placeholders()),
{
    missing_tokens(template, &placeholder_tokens())
}

/// Whether contact file contents make a run succeed: each trimmed field is
/// non-empty and the e-mail address holds an `@`.
pub open spec fn contacts_valid(email: Seq<char>, phone: Seq<char>, name: Seq<char>) -> bool {
    &&& trimmed(email).len() > 0
    &&& trimmed(phone).len() > 0
    &&& trimmed(name).len() > 0
    &&& has_char(trimmed(email), '@')
}

/// The page built from contact file contents and a template.
pub open spec fn page(email: Seq<char>, phone: Seq<char>, name: Seq<char>, template: Seq<char>) -> Seq<char> {
    substituted(template, placeholders(), replacements(trimmed(email), trimmed(phone), trimmed(name)))
}

/// Builds the page from the contents of the contact files and the template.
/// The paths of `config` name the file in a diagnostic.
pub fn generate(config: &Config, email: &str, phone: &str, name: &str, template: &str) -> (r: Result<
    String,
    GenerateError,
>)
    ensures
        r is Ok <==> contacts_valid(email@, phone@, name@),
        r matches Ok(out) ==> out@ == page(email@, phone@, name@, template@),
        r matches Err(e) ==> (if trimmed(email@).len() == 0 {
            e matches GenerateError::EmptyField(p) && p@ == config.email_file@
        } else if trimmed(phone@).len() == 0 {
            e matches GenerateError::EmptyField(p) && p@ == config.phone_file@
        } else if trimmed(name@).len() == 0 {
            e matches GenerateError::EmptyField(p) && p@ == config.name_file@
        } else {
            e is MalformedEmail
        }),
{
    let email = validate_field(email, config.email_file.as_str())?;
    let phone = validate_field(phone, config.phone_file.as_str())?;
    let name = validate_field(name, config.name_file.as_str())?;
    let values = replacement_values(email.as_str(), phone.as_str(), name.as_str())?;
    let tokens = placeholder_tokens();
    assert(tokens@.len() == tokens.deep_view().len());
    assert(values@.len() == values.deep_view().len());
    Ok(substitute(template, &tokens, &values))
}

/// Reversal keeps a value inert.
proof fn lemma_reversed_inert(v: Seq<char>)
    requires
        inert(v),
    ensures
        inert(reversed(v)),
{
    let r = reversed(v);
    assert forall|i: int| 0 <= i < r.len() implies #[trigger] r[i] != '_' by {
        assert(r[i] == v[v.len() - 1 - i]);
    }
    let i = choose|i: int| 0 <= i < v.len() && !is_token_char(#[trigger] v[i]);
    assert(r[v.len() - 1 - i] == v[i]);
}

/// An address whose user and domain parts are inert is inert too.
proof fn lemma_email_inert(email: Seq<char>)
    requires
        has_char(email, '@'),
        inert(user_part(email)),
        inert(domain_part(email)),
    ensures
        inert(email),
{
    lemma_first_index_of(email, '@');
    let at = first_index_of(email, '@');
    assert forall|i: int| 0 <= i < email.len() implies #[trigger] email[i] != '_' by {
        if i < at {
            assert(email[i] == user_part(email)[i]);
        } else if i > at {
            assert(email[i] == domain_part(email)[i - at - 1]);
        }
    }
    assert(!is_token_char(email[at]));
}

/// After a successful run, the page holds none of the placeholders, provided
/// that no replacement can help to form one: the user and domain parts of the
/// address, the phone and the name each hold no `_` and hold some character
/// other than an upper-case ASCII letter.
pub proof fn lemma_no_placeholder_left(email: Seq<char>, phone: Seq<char>, name: Seq<char>, template: Seq<char>)
    requires
        contacts_valid(email, phone, name),
        inert(user_part(trimmed(email))),
        inert(domain_part(trimmed(email))),
        inert(trimmed(phone)),
        inert(trimmed(name)),
    ensures
        forall|j: int| 0 <= j < placeholders().len()
            ==> !occurs_in(page(email, phone, name, template), #[trigger] placeholders()[j]),
{
    let e = trimmed(email);
    let p = trimmed(phone);
    let n = trimmed(name);
    let vals = replacements(e, p, n);
    lemma_placeholders_shaped();
    lemma_email_inert(e);
    lemma_reversed_inert(user_part(e));
    lemma_reversed_inert(domain_part(e));
    lemma_reversed_inert(p);
    lemma_reversed_inert(n);
    assert forall|k: int| 0 <= k < vals.len() implies inert(#[trigger] vals[k]) by {
        if k == 0 {
        } else if k == 1 {
        } else if k == 2 {
        } else if k == 3 {
        } else if k == 4 {
        } else if k == 5 {
        } else {
        }
    }
    assert(inert_rules(placeholders(), vals));
    lemma_no_token_left(template, placeholders(), vals);
}

/// Identical inputs give identical pages.
pub proof fn lemma_page_deterministic(
    email1: Seq<char>,
    phone1: Seq<char>,
    name1: Seq<char>,
    template1: Seq<char>,
    email2: Seq<char>,
    phone2: Seq<char>,
    name2: Seq<char>,
    template2: Seq<char>,
)
    requires
        email1 == email2,
        phone1 == phone2,
        name1 == name2,
        template1 == template2,
    ensures
        contacts_valid(email1, phone1, name1) == contacts_valid(email2, phone2, name2),
        page(email1, phone1, name1, template1) == page(email2, phone2, name2, template2),
{
}

} // verus!
