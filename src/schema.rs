//! Declaration of schemas and the authentication settings.
use vstd::prelude::*;
use crate::form::{type_is_multivalue, Field, Schema, SchemaType, Source, Type};
use crate::update::strings_view;

verus! {

/// A titled group of fields on a form.
pub struct FormSection {
    pub title: String,
    pub fields: Vec<String>,
}

/// A declared schema with its form layout.
pub struct SchemaDecl {
    pub schema: Schema,
    pub sections: Vec<FormSection>,
}

/// Collects schema declarations.
pub struct Builder {
    pub schemas: Vec<SchemaDecl>,
}

/// `f` has the id `id` and the default `d`.
pub open spec fn field_is(f: Field, id: Seq<char>, d: Option<Seq<char>>) -> bool {
    &&& f.id@ == id
    &&& match f.default {
        Some(v) => d == Some(v@),
        None => d is None,
    }
}

/// A single select whose options are the `type` values of the `directory` schema.
pub open spec fn is_directory_select(t: Type) -> bool {
    match t {
        Type::Select { source: Source::Dynamic { schema, field }, multi } => {
            !multi && schema@ == "directory"@ && field@ == "type"@
        },
        _ => false,
    }
}

/// `s` has the title `title` and lists the fields `ids`, in order.
pub open spec fn section_is(s: FormSection, title: Seq<char>, ids: Seq<Seq<char>>) -> bool {
    s.title@ == title && strings_view(s.fields@) == ids
}

/// The fields of the `authentication` schema, in order.
pub open spec fn authentication_fields(fs: Seq<Field>) -> bool {
    &&& fs.len() == 7
    &&& field_is(fs[0], "storage.directory"@, None) && is_directory_select(fs[0].typ_)
    &&& field_is(fs[1], "authentication.fail2ban"@, Some("100/1d"@)) && fs[1].typ_ is Rate
    &&& field_is(fs[2], "authentication.rate-limit"@, Some("10/1m"@)) && fs[2].typ_ is Rate
    &&& field_is(fs[3], "authentication.fallback-admin.user"@, None) && fs[3].typ_ is Input
    &&& field_is(fs[4], "authentication.fallback-admin.secret"@, None) && fs[4].typ_ is Secret
    &&& field_is(fs[5], "authentication.master.user"@, None) && fs[5].typ_ is Input
    &&& field_is(fs[6], "authentication.master.secret"@, None) && fs[6].typ_ is Secret
}

/// The form sections of the `authentication` schema, in order.
pub open spec fn authentication_sections(ss: Seq<FormSection>) -> bool {
    &&& ss.len() == 4
    &&& section_is(ss[0], "Authentication"@, seq!["storage.directory"@])
    &&& section_is(ss[1], "Fallback Administrator"@, seq![
        "authentication.fallback-admin.user"@,
        "authentication.fallback-admin.secret"@,
    ])
    &&& section_is(ss[2], "Master User"@, seq!["authentication.master.user"@, "authentication.master.secret"@])
    &&& section_is(ss[3], "Security"@, seq!["authentication.rate-limit"@, "authentication.fail2ban"@])
}

/// The fields of the `oauth` schema, in order.
pub open spec fn oauth_fields(fs: Seq<Field>) -> bool {
    &&& fs.len() == 7
    &&& field_is(fs[0], "oauth.key"@, None) && fs[0].typ_ is Secret
    &&& field_is(fs[1], "oauth.auth.max-attempts"@, Some("3"@)) && fs[1].typ_ is Input
    &&& field_is(fs[2], "oauth.expiry.user-code"@, Some("30m"@)) && fs[2].typ_ is Duration
    &&& field_is(fs[3], "oauth.expiry.auth-code"@, Some("10m"@)) && fs[3].typ_ is Duration
    &&& field_is(fs[4], "oauth.expiry.token"@, Some("1h"@)) && fs[4].typ_ is Duration
    &&& field_is(fs[5], "oauth.expiry.refresh-token"@, Some("30d"@)) && fs[5].typ_ is Duration
    &&& field_is(fs[6], "oauth.expiry.refresh-token-renew"@, Some("4d"@)) && fs[6].typ_ is Duration
}

/// The form sections of the `oauth` schema, in order.
pub open spec fn oauth_sections(ss: Seq<FormSection>) -> bool {
    &&& ss.len() == 2
    &&& section_is(ss[0], "OAuth Settings"@, seq!["oauth.key"@, "oauth.auth.max-attempts"@])
    &&& section_is(ss[1], "Expiry"@, seq![
        "oauth.expiry.user-code"@,
        "oauth.expiry.auth-code"@,
        "oauth.expiry.token"@,
        "oauth.expiry.refresh-token"@,
        "oauth.expiry.refresh-token-renew"@,
    ])
}

/// The `authentication` schema: a list of seven fields in four sections.
pub open spec fn is_authentication(d: SchemaDecl) -> bool {
    &&& d.schema.id@ == "authentication"@
    &&& d.schema.typ is List
    &&& authentication_fields(d.schema.fields@)
    &&& authentication_sections(d.sections@)
}

/// The `oauth` schema: a list of seven fields in two sections.
pub open spec fn is_oauth(d: SchemaDecl) -> bool {
    &&& d.schema.id@ == "oauth"@
    &&& d.schema.typ is List
    &&& oauth_fields(d.schema.fields@)
    &&& oauth_sections(d.sections@)
}

/// How often `id` occurs in `ids`.
pub open spec fn occurrences(ids: Seq<Seq<char>>, id: Seq<char>) -> nat
    decreases ids.len(),
{
    if ids.len() == 0 {
        0
    } else {
        occurrences(ids.drop_last(), id) + if ids.last() == id { 1nat } else { 0nat }
    }
}

/// The field ids listed by the sections, section after section.
pub open spec fn listed_ids(ss: Seq<FormSection>) -> Seq<Seq<char>>
    decreases ss.len(),
{
    if ss.len() == 0 {
        Seq::empty()
    } else {
        listed_ids(ss.drop_last()) + strings_view(ss.last().fields@)
    }
}

/// Some field of `fs` has the id `id`.
pub open spec fn declared(fs: Seq<Field>, id: Seq<char>) -> bool {
    exists|i: int| 0 <= i < fs.len() && (#[trigger] fs[i]).id@ == id
}

/// Every field of the schema is listed in exactly one place of its form,
/// every listed id is a field of the schema, and no field is multivalue.
pub open spec fn well_laid_out(d: SchemaDecl) -> bool {
    let fs = d.schema.fields@;
    let listed = listed_ids(d.sections@);
    &&& forall|i: int| 0 <= i < fs.len() ==> occurrences(listed, #[trigger] fs[i].id@) == 1
    &&& forall|j: int| 0 <= j < listed.len() ==> declared(fs, #[trigger] listed[j])
    &&& forall|i: int| 0 <= i < fs.len() ==> !type_is_multivalue(#[trigger] fs[i].typ_)
}

fn new_field(id: &str, label: &str, help: &str, typ_: Type, default: Option<&str>) -> (r: Field)
    ensures
        r.id@ == id@,
        r.label@ == label@,
        r.help@ == help@,
        r.typ_ == typ_,
        match default {
            Some(d) => r.default is Some && r.default->Some_0@ == d@,
            None => r.default is None,
        },
{
    Field {
        id: id.to_owned(),
        label: label.to_owned(),
        help: help.to_owned(),
        typ_,
        default: match default {
            Some(d) => Some(d.to_owned()),
            None => None,
        },
    }
}

fn section(title: &str) -> (r: FormSection)
    ensures
        r.title@ == title@,
        r.fields@.len() == 0,
{
    FormSection { title: title.to_owned(), fields: Vec::new() }
}

/// Lists the field `id` last in the section.
fn list_field(s: &mut FormSection, id: &str)
    ensures
        final(s).title == old(s).title,
        strings_view(final(s).fields@) == strings_view(old(s).fields@).push(id@),
{
    s.fields.push(id.to_owned());
    assert(strings_view(s.fields@) =~= strings_view(old(s).fields@).push(id@));
}

fn authentication() -> (r: SchemaDecl)
    ensures
        is_authentication(r),
{
    let mut fs: Vec<Field> = Vec::new();
    fs.push(new_field("storage.directory", "Directory",
        "The directory to use for authentication and authorization",
        Type::Select {
            source: Source::Dynamic { schema: "directory".to_owned(), field: "type".to_owned() },
            multi: false,
        }, None));
    fs.push(new_field("authentication.fail2ban", "Ban rate",
        "The maximum number of failed login attempts before the IP is banned", Type::Rate, Some("100/1d")));
    fs.push(new_field("authentication.rate-limit", "Limit rate",
        "Amount of authentication requests that can be made in a timeframe by a given IP address",
        Type::Rate, Some("10/1m")));
    fs.push(new_field("authentication.fallback-admin.user", "Username",
        "A rescue admin user can access the server in case the directory becomes unavailable",
        Type::Input, None));
    fs.push(new_field("authentication.fallback-admin.secret", "Password",
        "A rescue admin secret that can access the server in case the directory becomes unavailable",
        Type::Secret, None));
    fs.push(new_field("authentication.master.user", "Username",
        "The master user can access any user account using 'user-login%master-user' as the login name. Leave blank to disable",
        Type::Input, None));
    fs.push(new_field("authentication.master.secret", "Password",
        "The master user secret to access any user account ", Type::Secret, None));
    let mut sections: Vec<FormSection> = Vec::new();
    let mut s = section("Authentication");
    list_field(&mut s, "storage.directory");
    sections.push(s);
    let mut s = section("Fallback Administrator");
    list_field(&mut s, "authentication.fallback-admin.user");
    list_field(&mut s, "authentication.fallback-admin.secret");
    sections.push(s);
    let mut s = section("Master User");
    list_field(&mut s, "authentication.master.user");
    list_field(&mut s, "authentication.master.secret");
    sections.push(s);
    let mut s = section("Security");
    list_field(&mut s, "authentication.rate-limit");
    list_field(&mut s, "authentication.fail2ban");
    sections.push(s);
    let r = SchemaDecl {
        schema: Schema { id: "authentication".to_owned(), typ: SchemaType::List, fields: fs },
        sections,
    };
    assert(strings_view(r.sections@[0].fields@) =~= seq!["storage.directory"@]);
    assert(strings_view(r.sections@[1].fields@) =~= seq![
        "authentication.fallback-admin.user"@,
        "authentication.fallback-admin.secret"@,
    ]);
    assert(strings_view(r.sections@[2].fields@) =~= seq![
        "authentication.master.user"@,
        "authentication.master.secret"@,
    ]);
    assert(strings_view(r.sections@[3].fields@) =~= seq![
        "authentication.rate-limit"@,
        "authentication.fail2ban"@,
    ]);
    r
}

fn oauth() -> (r: SchemaDecl)
    ensures
        is_oauth(r),
{
    let mut fs: Vec<Field> = Vec::new();
    fs.push(new_field("oauth.key", "Key", "Encryption key to use for OAuth", Type::Secret, None));
    fs.push(new_field("oauth.auth.max-attempts", "Max attempts",
        "Number of failed login attempts before an authorization code is invalidated", Type::Input, Some("3")));
    fs.push(new_field("oauth.expiry.user-code", "User code",
        "Expiration time of a user code issued by the device authentication flow", Type::Duration, Some("30m")));
    fs.push(new_field("oauth.expiry.auth-code", "Auth code",
        "Expiration time of an authorization code issued by the authorization code flow", Type::Duration,
        Some("10m")));
    fs.push(new_field("oauth.expiry.token", "Token", "Expiration time of an OAuth access token",
        Type::Duration, Some("1h")));
    fs.push(new_field("oauth.expiry.refresh-token", "Refresh token",
        "Expiration time of an OAuth refresh token", Type::Duration, Some("30d")));
    fs.push(new_field("oauth.expiry.refresh-token-renew", "Refresh token renew",
        "Remaining time in a refresh token before a new one is issued to the client", Type::Duration,
        Some("4d")));
    let mut sections: Vec<FormSection> = Vec::new();
    let mut s = section("OAuth Settings");
    list_field(&mut s, "oauth.key");
    list_field(&mut s, "oauth.auth.max-attempts");
    sections.push(s);
    let mut s = section("Expiry");
    list_field(&mut s, "oauth.expiry.user-code");
    list_field(&mut s, "oauth.expiry.auth-code");
    list_field(&mut s, "oauth.expiry.token");
    list_field(&mut s, "oauth.expiry.refresh-token");
    list_field(&mut s, "oauth.expiry.refresh-token-renew");
    sections.push(s);
    let r = SchemaDecl { schema: Schema { id: "oauth".to_owned(), typ: SchemaType::List, fields: fs }, sections };
    assert(strings_view(r.sections@[0].fields@) =~= seq!["oauth.key"@, "oauth.auth.max-attempts"@]);
    assert(strings_view(r.sections@[1].fields@) =~= seq![
        "oauth.expiry.user-code"@,
        "oauth.expiry.auth-code"@,
        "oauth.expiry.token"@,
        "oauth.expiry.refresh-token"@,
        "oauth.expiry.refresh-token-renew"@,
    ]);
    r
}

impl Builder {
    pub fn new() -> (r: Builder)
        ensures
            r.schemas@.len() == 0,
    {
        Builder { schemas: Vec::new() }
    }

    /// Adds the `authentication` and `oauth` schemas, after those declared
    /// so far: each field with its type and default, each form section
    /// with its title and fields, every field listed once.
    pub fn build_authentication(self) -> (r: Self)
        ensures
            r.schemas@.len() == self.schemas@.len() + 2,
            r.schemas@.subrange(0, self.schemas@.len() as int) == self.schemas@,
            is_authentication(r.schemas@[self.schemas@.len() as int]),
            is_oauth(r.schemas@[self.schemas@.len() as int + 1]),
            well_laid_out(r.schemas@[self.schemas@.len() as int]),
            well_laid_out(r.schemas@[self.schemas@.len() as int + 1]),
    {
        let mut schemas = self.schemas;
        let a = authentication();
        let o = oauth();
        proof {
            authentication_is_well_laid_out(a);
            oauth_is_well_laid_out(o);
        }
        schemas.push(a);
        schemas.push(o);
        assert(schemas@.subrange(0, self.schemas@.len() as int) =~= self.schemas@);
        Builder { schemas }
    }
}

/// The layout of the `authentication` form lists each field once.
pub proof fn authentication_is_well_laid_out(d: SchemaDecl)
    requires
        is_authentication(d),
    ensures
        well_laid_out(d),
{
    reveal_strlit("storage.directory");
    reveal_strlit("authentication.fail2ban");
    reveal_strlit("authentication.rate-limit");
    reveal_strlit("authentication.fallback-admin.user");
    reveal_strlit("authentication.fallback-admin.secret");
    reveal_strlit("authentication.master.user");
    reveal_strlit("authentication.master.secret");
    reveal_with_fuel(listed_ids, 5);
    reveal_with_fuel(occurrences, 8);
    let fs = d.schema.fields@;
    let listed = listed_ids(d.sections@);
    assert(listed =~= seq![
        "storage.directory"@,
        "authentication.fallback-admin.user"@,
        "authentication.fallback-admin.secret"@,
        "authentication.master.user"@,
        "authentication.master.secret"@,
        "authentication.rate-limit"@,
        "authentication.fail2ban"@,
    ]);
    assert forall|i: int| 0 <= i < fs.len() implies occurrences(listed, #[trigger] fs[i].id@) == 1 by {
        let k: int = if i == 0 { 0 } else if i == 1 { 6 } else if i == 2 { 5 } else if i == 3 { 1 } else if i == 4 { 2 } else if i == 5 { 3 } else { 4 };
        assert(listed[k] == fs[i].id@);
        assert forall|l: int| 0 <= l < listed.len() && l != k implies listed[l] != fs[i].id@ by {
            if listed[l] == fs[i].id@ {
                assert(listed[l].len() == listed[k].len());
                assert(listed[l][13] == listed[k][13]);
            }
        }
        lemma_occurrences_count(listed, fs[i].id@, k);
    }
    assert forall|j: int| 0 <= j < listed.len() implies declared(fs, #[trigger] listed[j]) by {
        assert(fs[0].id@ == listed[j] || fs[1].id@ == listed[j] || fs[2].id@ == listed[j] || fs[3].id@ == listed[j]
            || fs[4].id@ == listed[j] || fs[5].id@ == listed[j] || fs[6].id@ == listed[j]);
    }
}

/// The layout of the `oauth` form lists each field once.
pub proof fn oauth_is_well_laid_out(d: SchemaDecl)
    requires
        is_oauth(d),
    ensures
        well_laid_out(d),
{
    reveal_strlit("oauth.key");
    reveal_strlit("oauth.auth.max-attempts");
    reveal_strlit("oauth.expiry.user-code");
    reveal_strlit("oauth.expiry.auth-code");
    reveal_strlit("oauth.expiry.token");
    reveal_strlit("oauth.expiry.refresh-token");
    reveal_strlit("oauth.expiry.refresh-token-renew");
    reveal_with_fuel(listed_ids, 3);
    reveal_with_fuel(occurrences, 8);
    let fs = d.schema.fields@;
    let listed = listed_ids(d.sections@);
    assert(listed =~= seq![
        "oauth.key"@,
        "oauth.auth.max-attempts"@,
        "oauth.expiry.user-code"@,
        "oauth.expiry.auth-code"@,
        "oauth.expiry.token"@,
        "oauth.expiry.refresh-token"@,
        "oauth.expiry.refresh-token-renew"@,
    ]);
    assert forall|i: int| 0 <= i < fs.len() implies occurrences(listed, #[trigger] fs[i].id@) == 1 by {
        let k: int = if i == 0 { 0 } else if i == 1 { 1 } else if i == 2 { 2 } else if i == 3 { 3 } else if i == 4 { 4 } else if i == 5 { 5 } else { 6 };
        assert(listed[k] == fs[i].id@);
        assert forall|l: int| 0 <= l < listed.len() && l != k implies listed[l] != fs[i].id@ by {
            if listed[l] == fs[i].id@ {
                assert(listed[l].len() == listed[k].len());
                assert(listed[l][13] == listed[k][13]);
            }
        }
        lemma_occurrences_count(listed, fs[i].id@, k);
    }
    assert forall|j: int| 0 <= j < listed.len() implies declared(fs, #[trigger] listed[j]) by {
        assert(fs[0].id@ == listed[j] || fs[1].id@ == listed[j] || fs[2].id@ == listed[j] || fs[3].id@ == listed[j]
            || fs[4].id@ == listed[j] || fs[5].id@ == listed[j] || fs[6].id@ == listed[j]);
    }
}

/// `id` occurs once in `ids` when it is at `k` and nowhere else.
proof fn lemma_occurrences_count(ids: Seq<Seq<char>>, id: Seq<char>, k: int)
    requires
        0 <= k < ids.len(),
        ids[k] == id,
        forall|l: int| 0 <= l < ids.len() && l != k ==> ids[l] != id,
    ensures
        occurrences(ids, id) == 1,
    decreases ids.len(),
{
    if k == ids.len() - 1 {
        lemma_occurrences_none(ids.drop_last(), id);
    } else {
        lemma_occurrences_count(ids.drop_last(), id, k);
    }
}

proof fn lemma_occurrences_none(ids: Seq<Seq<char>>, id: Seq<char>)
    requires
        forall|l: int| 0 <= l < ids.len() ==> ids[l] != id,
    ensures
        occurrences(ids, id) == 0,
    decreases ids.len(),
{
    if ids.len() > 0 {
        lemma_occurrences_none(ids.drop_last(), id);
    }
}

} // verus!
