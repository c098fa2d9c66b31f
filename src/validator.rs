//! Validation of program descriptions against the program JSON schema: a
//! program names its `title`, its `entryNode`, its `operators` (each with an
//! `id`, a `type` and optional `parameters`) and its `connections` (each
//! `from` one operator `to` another).

use vstd::prelude::*;
use vstd::string::StringExecFns;
use jsonschema::JSONSchema;
use serde_json::Value;

verus! {

#[verifier::external_type_specification]
#[verifier::external_body]
pub struct ExValue(Value);

#[verifier::external_type_specification]
#[verifier::external_body]
pub struct ExJSONSchema(JSONSchema);

/// The JSON schema of a program description.
pub const PROGRAM_SCHEMA: &'static str = r#"{
  "$schema": "http://json-schema.org/draft-07/schema#",
  "type": "object",
  "properties": {
    "title": { "type": "string", "examples": ["Peak detector"] },
    "description": { "type": "string", "examples": ["This is a program to detect peaks in ECG..."] },
    "version": { "type": "string", "examples": ["v1"] },
    "author": { "type": "string", "examples": ["Someone <someone@gmail.com>"] },
    "license": { "type": "string", "examples": ["MIT", "private"] },
    "entryNode": { "type": "string", "examples": ["ma1"] },
    "optim": {
      "type": "object",
      "properties": {
        "algorithm": { "type": "string", "default": "Nelder-Mead", "examples": ["Nelder-Mead"] }
      }
    },
    "operators": {
      "type": "array",
      "items": {
        "type": "object",
        "properties": {
          "id": { "type": "string", "examples": ["ma1"] },
          "type": { "type": "string", "examples": ["MA"] },
          "parameters": {
            "type": "array",
            "items": {
              "type": "object",
              "properties": {
                "name": { "type": "string", "examples": ["backwardTimeWindow"] },
                "type": { "enum": ["integer", "float"] },
                "value": { "type": "number", "examples": [2, 0.33] },
                "optim": {
                  "type": "object",
                  "properties": {
                    "range": {
                      "type": "object",
                      "properties": {
                        "min": { "type": "number", "examples": [0] },
                        "max": { "type": "number", "examples": [10] }
                      },
                      "additionalProperties": false
                    }
                  },
                  "additionalProperties": false
                }
              },
              "required": ["name", "type", "value"],
              "additionalProperties": false
            }
          }
        },
        "required": ["id", "type"],
        "additionalProperties": true
      }
    },
    "connections": {
      "type": "array",
      "items": {
        "type": "object",
        "properties": {
          "from": { "type": "string", "examples": ["ma1"] },
          "to": { "type": "string", "examples": ["std"] }
        },
        "required": ["from", "to"],
        "additionalProperties": false
      }
    }
  },
  "required": ["title", "entryNode", "operators", "connections"],
  "additionalProperties": true
}"#;

/// Relies on serde_json::from_str: the JSON value that `text` holds, or
/// `None` where `text` is not JSON.
#[verifier::external_body]
fn parse_json(text: &str) -> (r: Option<Value>) {
    serde_json::from_str(text).ok()
}

/// Relies on jsonschema's JSONSchema::compile: the compiled schema, or the
/// description of why `schema` is not one.
#[verifier::external_body]
fn compile_schema(schema: &Value) -> (r: Result<JSONSchema, String>) {
    JSONSchema::compile(schema).map_err(|e| format!("{:?}", e))
}

/// Relies on jsonschema's JSONSchema::validate: the ways in which `instance`
/// breaks the schema, each as its message and the path of the offending
/// value; none where it conforms.
#[verifier::external_body]
fn schema_errors(compiled: &JSONSchema, instance: &Value) -> (r: Vec<(String, String)>) {
    match compiled.validate(instance) {
        Ok(()) => Vec::new(),
        Err(errors) => errors.map(|e| (e.to_string(), e.instance_path.to_string())).collect(),
    }
}

/// The report of validation errors, given as (message, path) pairs: for
/// each, `Validation error: <message>` and `path: <path>`, each on a line.
pub open spec fn error_report(errors: Seq<(Seq<char>, Seq<char>)>) -> Seq<char>
    decreases errors.len(),
{
    if errors.len() == 0 {
        Seq::empty()
    } else {
        let e = errors.last();
        error_report(errors.drop_last()) + "Validation error: "@ + e.0 + "\npath: "@ + e.1 + "\n"@
    }
}

/// Writes the report of validation errors.
pub fn validation_message(errors: &Vec<(String, String)>) -> (r: String)
    ensures
        r@ == error_report(errors@.map_values(|e: (String, String)| (e.0@, e.1@))),
{
    let ghost all = errors@.map_values(|e: (String, String)| (e.0@, e.1@));
    let mut msg = String::new();
    let mut i: usize = 0;
    assert(all.take(0) =~= Seq::<(Seq<char>, Seq<char>)>::empty());
    while i < errors.len()
        invariant
            all == errors@.map_values(|e: (String, String)| (e.0@, e.1@)),
            i <= all.len(),
            msg@ == error_report(all.take(i as int)),
        decreases errors.len() - i,
    {
        proof {
            assert(all.take(i + 1).drop_last() =~= all.take(i as int));
            assert(all.take(i + 1).last() == all[i as int]);
        }
        msg.append("Validation error: ");
        msg.append(errors[i].0.as_str());
        msg.append("\npath: ");
        msg.append(errors[i].1.as_str());
        msg.append("\n");
        i = i + 1;
    }
    assert(all.take(all.len() as int) =~= all);
    msg
}

/// Checks program descriptions against the program schema.
pub struct ProgramJsonSchemaValidator {
    schema: Option<Value>,
}

impl ProgramJsonSchemaValidator {
    pub fn new() -> (r: Self) {
        ProgramJsonSchemaValidator { schema: parse_json(PROGRAM_SCHEMA) }
    }

    /// `Ok` where `program` conforms to the schema; otherwise the report of
    /// the errors, or why the schema itself could not be used.
    pub fn validate(&self, program: &Value) -> (r: Result<(), String>)
        ensures
            r matches Err(m) ==> m@.len() > 0,
    {
        proof {
            reveal_strlit("Invalid schema");
            reveal_strlit("Invalid schema:\n");
        }
        match &self.schema {
            None => Err(String::from_str("Invalid schema")),
            Some(schema) => match compile_schema(schema) {
                Err(detail) => Err(String::from_str("Invalid schema:\n").concat(detail.as_str())),
                Ok(compiled) => {
                    let errors = schema_errors(&compiled, program);
                    if errors.len() == 0 {
                        Ok(())
                    } else {
                        let m = validation_message(&errors);
                        proof {
                            reveal_strlit("Validation error: ");
                            let all = errors@.map_values(|e: (String, String)| (e.0@, e.1@));
                            assert(all.len() > 0);
                            assert(m@.len() >= "Validation error: "@.len());
                        }
                        Err(m)
                    }
                },
            },
        }
    }
}

} // verus!
