use crate::text::str_eq;
use vstd::prelude::*;

verus! {

/// The keys of a service endpoint written as a map.
#[derive(Clone, Copy, Debug, PartialEq, Eq, Structural)]
pub enum Field {
    Context,
    Type,
    Instances,
}

/// Why a map is no service endpoint.
#[derive(Clone, Copy, Debug, PartialEq, Eq, Structural)]
pub enum EndpointError {
    /// The map holds a key that is none of the three.
    UnknownField,
    /// The map holds this key twice.
    DuplicateField(Field),
    /// The map lacks this key.
    MissingField(Field),
}

/// The value read for one key of the map.
#[derive(Debug, PartialEq, Eq)]
pub enum FieldValue {
    Context(String),
    Type(String),
    Instances(Vec<String>),
}

/// How a service endpoint is written out.
#[derive(Clone, Copy, Debug, PartialEq, Eq, Structural)]
pub enum Form {
    /// As its context alone.
    ContextOnly,
    /// As a map of `@context`, `type` and `instances`.
    Full,
}

/// A service endpoint: a context, and optionally a type and instances.
#[derive(Debug, PartialEq, Eq)]
pub struct ServiceEndpoint {
    pub context: String,
    pub endpoint_type: Option<String>,
    pub instances: Option<Vec<String>>,
}

/// What has been read of a service endpoint written as a map, key by key.
#[derive(Debug, PartialEq, Eq)]
pub struct EndpointFields {
    pub context: Option<String>,
    pub endpoint_type: Option<String>,
    pub instances: Option<Vec<String>>,
}

impl Field {
    /// The key as it is written in the map.
    pub open spec fn spec_key(self) -> Seq<char> {
        match self {
            Field::Context => "@context"@,
            Field::Type => "type"@,
            Field::Instances => "instances"@,
        }
    }

    /// The key as it is written in the map.
    pub fn key(self) -> (key: &'static str)
        ensures
            key@ == self.spec_key(),
    {
        match self {
            Field::Context => "@context",
            Field::Type => "type",
            Field::Instances => "instances",
        }
    }

    /// The field that a key names.
    pub open spec fn spec_from_key(key: Seq<char>) -> Option<Field> {
        if key == "@context"@ {
            Some(Field::Context)
        } else if key == "type"@ {
            Some(Field::Type)
        } else if key == "instances"@ {
            Some(Field::Instances)
        } else {
            None
        }
    }

    /// The field that a key names: `@context`, `type` or `instances`. Fails
    /// with `UnknownField` on any other key.
    pub fn from_key(key: &str) -> (out: Result<Field, EndpointError>)
        ensures
            match Field::spec_from_key(key@) {
                Some(field) => out == Ok::<Field, EndpointError>(field),
                None => out == Err::<Field, EndpointError>(EndpointError::UnknownField),
            },
    {
        if str_eq(key, "@context") {
            Ok(Field::Context)
        } else if str_eq(key, "type") {
            Ok(Field::Type)
        } else if str_eq(key, "instances") {
            Ok(Field::Instances)
        } else {
            Err(EndpointError::UnknownField)
        }
    }

    /// Each field is found again by its key.
    pub proof fn lemma_key_names_field(self)
        ensures
            Field::spec_from_key(self.spec_key()) == Some(self),
    {
        reveal_strlit("@context");
        reveal_strlit("type");
        reveal_strlit("instances");
        assert("@context"@.len() == 8 && "type"@.len() == 4 && "instances"@.len() == 9);
    }
}

impl FieldValue {
    /// The field that this value belongs to.
    pub open spec fn spec_field(self) -> Field {
        match self {
            FieldValue::Context(_) => Field::Context,
            FieldValue::Type(_) => Field::Type,
            FieldValue::Instances(_) => Field::Instances,
        }
    }

    /// The field that this value belongs to.
    pub fn field(&self) -> (field: Field)
        ensures
            field == self.spec_field(),
    {
        match self {
            FieldValue::Context(_) => Field::Context,
            FieldValue::Type(_) => Field::Type,
            FieldValue::Instances(_) => Field::Instances,
        }
    }
}

impl EndpointFields {
    /// Whether a value has been read for `field`.
    pub open spec fn holds(self, field: Field) -> bool {
        match field {
            Field::Context => self.context is Some,
            Field::Type => self.endpoint_type is Some,
            Field::Instances => self.instances is Some,
        }
    }

    /// These fields with `value` in the place of its field.
    pub open spec fn with(self, value: FieldValue) -> EndpointFields {
        match value {
            FieldValue::Context(context) => EndpointFields {
                context: Some(context),
                endpoint_type: self.endpoint_type,
                instances: self.instances,
            },
            FieldValue::Type(endpoint_type) => EndpointFields {
                context: self.context,
                endpoint_type: Some(endpoint_type),
                instances: self.instances,
            },
            FieldValue::Instances(instances) => EndpointFields {
                context: self.context,
                endpoint_type: self.endpoint_type,
                instances: Some(instances),
            },
        }
    }

    /// Nothing read yet.
    pub fn new() -> (fields: EndpointFields)
        ensures
            fields == (EndpointFields { context: None, endpoint_type: None, instances: None }),
    {
        EndpointFields { context: None, endpoint_type: None, instances: None }
    }

    /// Whether the next key may be `field`: fails with `DuplicateField` where
    /// a value has been read for it already.
    pub fn expect(&self, field: Field) -> (out: Result<(), EndpointError>)
        ensures
            out == (if self.holds(field) {
                Err::<(), EndpointError>(EndpointError::DuplicateField(field))
            } else {
                Ok::<(), EndpointError>(())
            }),
    {
        let held = match field {
            Field::Context => self.context.is_some(),
            Field::Type => self.endpoint_type.is_some(),
            Field::Instances => self.instances.is_some(),
        };
        if held {
            Err(EndpointError::DuplicateField(field))
        } else {
            Ok(())
        }
    }

    /// Takes in the value read for a key. Fails with `DuplicateField`, and
    /// keeps what was read before, where the key has occurred already.
    pub fn accept(&mut self, value: FieldValue) -> (out: Result<(), EndpointError>)
        ensures
            old(self).holds(value.spec_field()) ==> out == Err::<(), EndpointError>(
                EndpointError::DuplicateField(value.spec_field()),
            ) && *final(self) == *old(self),
            !old(self).holds(value.spec_field()) ==> out is Ok && *final(self) == old(self).with(
                value,
            ),
    {
        match self.expect(value.field()) {
            Err(e) => Err(e),
            Ok(()) => {
                match value {
                    FieldValue::Context(context) => {
                        self.context = Some(context);
                    },
                    FieldValue::Type(endpoint_type) => {
                        self.endpoint_type = Some(endpoint_type);
                    },
                    FieldValue::Instances(instances) => {
                        self.instances = Some(instances);
                    },
                }
                Ok(())
            },
        }
    }

    /// The service endpoint that the map wrote. Fails with `MissingField`
    /// where the map held no `@context`.
    pub fn finish(self) -> (out: Result<ServiceEndpoint, EndpointError>)
        ensures
            match self.context {
                None => out == Err::<ServiceEndpoint, EndpointError>(
                    EndpointError::MissingField(Field::Context),
                ),
                Some(context) => out == Ok::<ServiceEndpoint, EndpointError>(
                    ServiceEndpoint {
                        context,
                        endpoint_type: self.endpoint_type,
                        instances: self.instances,
                    },
                ),
            },
    {
        match self.context {
            None => Err(EndpointError::MissingField(Field::Context)),
            Some(context) => Ok(
                ServiceEndpoint {
                    context,
                    endpoint_type: self.endpoint_type,
                    instances: self.instances,
                },
            ),
        }
    }
}

impl ServiceEndpoint {
    /// The service endpoint that a bare context writes: no type, no
    /// instances.
    pub fn from_context(context: String) -> (endpoint: ServiceEndpoint)
        ensures
            endpoint == (ServiceEndpoint { context, endpoint_type: None, instances: None }),
    {
        ServiceEndpoint { context, endpoint_type: None, instances: None }
    }

    /// A service endpoint without type and without instances is written as
    /// its context alone, any other as a map.
    pub open spec fn spec_form(self) -> Form {
        if self.instances is None && self.endpoint_type is None {
            Form::ContextOnly
        } else {
            Form::Full
        }
    }

    /// How this service endpoint is written out.
    pub fn form(&self) -> (form: Form)
        ensures
            form == self.spec_form(),
    {
        if self.instances.is_none() && self.endpoint_type.is_none() {
            Form::ContextOnly
        } else {
            Form::Full
        }
    }
}

/// What is read of a map is written out again as a map, unless it held the
/// context alone.
pub proof fn lemma_form_of_what_was_read(fields: EndpointFields, context: String)
    requires
        fields.context == Some(context),
    ensures
        (ServiceEndpoint {
            context,
            endpoint_type: fields.endpoint_type,
            instances: fields.instances,
        }).spec_form() == Form::ContextOnly <==> !fields.holds(Field::Type) && !fields.holds(
            Field::Instances,
        ),
{
}

} // verus!
