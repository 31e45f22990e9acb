use identity_credential::service_endpoint::EndpointError;
use identity_credential::service_endpoint::EndpointFields;
use identity_credential::service_endpoint::Field;
use identity_credential::service_endpoint::FieldValue;
use identity_credential::service_endpoint::Form;
use identity_credential::service_endpoint::ServiceEndpoint;

#[test]
fn keys_name_fields() {
    assert_eq!(Field::from_key("@context"), Ok(Field::Context));
    assert_eq!(Field::from_key("type"), Ok(Field::Type));
    assert_eq!(Field::from_key("instances"), Ok(Field::Instances));
    assert_eq!(Field::from_key("context"), Err(EndpointError::UnknownField));
    assert_eq!(Field::from_key(""), Err(EndpointError::UnknownField));
    assert_eq!(Field::from_key("Type"), Err(EndpointError::UnknownField));
}

#[test]
fn fields_are_found_again_by_their_keys() {
    for field in [Field::Context, Field::Type, Field::Instances] {
        assert_eq!(Field::from_key(field.key()), Ok(field));
    }
}

#[test]
fn a_full_map_makes_an_endpoint() {
    let mut fields = EndpointFields::new();
    assert_eq!(fields.accept(FieldValue::Type("hub".to_owned())), Ok(()));
    assert_eq!(fields.accept(FieldValue::Context("https://schema.example".to_owned())), Ok(()));
    assert_eq!(fields.accept(FieldValue::Instances(vec!["a".to_owned(), "b".to_owned()])), Ok(()));
    assert_eq!(
        fields.finish(),
        Ok(ServiceEndpoint {
            context: "https://schema.example".to_owned(),
            endpoint_type: Some("hub".to_owned()),
            instances: Some(vec!["a".to_owned(), "b".to_owned()]),
        })
    );
}

#[test]
fn a_key_that_occurs_twice_is_a_duplicate() {
    let mut fields = EndpointFields::new();
    assert_eq!(fields.expect(Field::Context), Ok(()));
    assert_eq!(fields.accept(FieldValue::Context("first".to_owned())), Ok(()));
    assert_eq!(fields.expect(Field::Context), Err(EndpointError::DuplicateField(Field::Context)));
    assert_eq!(
        fields.accept(FieldValue::Context("second".to_owned())),
        Err(EndpointError::DuplicateField(Field::Context))
    );
    assert_eq!(fields.context, Some("first".to_owned()));
    assert_eq!(fields.accept(FieldValue::Type("t".to_owned())), Ok(()));
    assert_eq!(
        fields.accept(FieldValue::Type("u".to_owned())),
        Err(EndpointError::DuplicateField(Field::Type))
    );
    assert_eq!(fields.accept(FieldValue::Instances(vec![])), Ok(()));
    assert_eq!(
        fields.accept(FieldValue::Instances(vec!["x".to_owned()])),
        Err(EndpointError::DuplicateField(Field::Instances))
    );
    assert_eq!(fields.instances, Some(vec![]));
}

#[test]
fn a_map_without_context_is_missing_it() {
    let mut fields = EndpointFields::new();
    assert_eq!(fields.accept(FieldValue::Type("hub".to_owned())), Ok(()));
    assert_eq!(fields.finish(), Err(EndpointError::MissingField(Field::Context)));
    assert_eq!(EndpointFields::new().finish(), Err(EndpointError::MissingField(Field::Context)));
}

#[test]
fn a_bare_context_makes_an_endpoint_without_type_and_instances() {
    assert_eq!(
        ServiceEndpoint::from_context("https://schema.example".to_owned()),
        ServiceEndpoint { context: "https://schema.example".to_owned(), endpoint_type: None, instances: None }
    );
}

#[test]
fn an_endpoint_is_written_as_its_context_alone_only_without_type_and_instances() {
    let mut endpoint = ServiceEndpoint::from_context("c".to_owned());
    assert_eq!(endpoint.form(), Form::ContextOnly);
    endpoint.endpoint_type = Some("t".to_owned());
    assert_eq!(endpoint.form(), Form::Full);
    endpoint.endpoint_type = None;
    endpoint.instances = Some(vec![]);
    assert_eq!(endpoint.form(), Form::Full);
    endpoint.endpoint_type = Some("t".to_owned());
    assert_eq!(endpoint.form(), Form::Full);
}

#[test]
fn the_field_of_a_value() {
    assert_eq!(FieldValue::Context(String::new()).field(), Field::Context);
    assert_eq!(FieldValue::Type(String::new()).field(), Field::Type);
    assert_eq!(FieldValue::Instances(Vec::new()).field(), Field::Instances);
}
