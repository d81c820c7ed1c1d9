//! Data migration stubs generated from S.DEF data migration specs, in
//! Rust, TypeScript or Python.

use vstd::prelude::*;
use crate::naming::{camel, pascal, snake, to_camel_case, to_pascal_case, to_snake_case};
use crate::text::{lowercase, push_str, str_eq, to_lowercase};

verus! {

/// A data migration of an S.DEF document: how one entity version becomes
/// the next.
#[derive(Debug, Clone)]
pub struct DataMigration {
    pub id: String,
    pub description: Option<String>,
    pub from_entity: String,
    pub to_entity: String,
    pub from_version: Option<String>,
    pub to_version: Option<String>,
    pub algorithm: Option<String>,
}

/// Generated migration code.
#[derive(Debug, Clone)]
pub struct MigrationCode {
    /// Source entity name (old version).
    pub from_entity: String,
    /// Target entity name (new version).
    pub to_entity: String,
    /// Source code content.
    pub code: String,
    /// File name.
    pub file_name: String,
}

/// Migration generator for one target language.
pub struct MigrationGenerator {
    target_language: String,
}

/// The text of an optional value, or a default.
pub open spec fn or_text(o: Option<String>, d: Seq<char>) -> Seq<char> {
    match o {
        Some(s) => s@,
        None => d,
    }
}

/// The algorithm text of a migration.
pub open spec fn algorithm_text(m: DataMigration) -> Seq<char> {
    or_text(m.algorithm, "Migration algorithm not specified"@)
}

/// The Rust migration function, with a test calling it.
pub open spec fn rust_migration_code(m: DataMigration) -> Seq<char> {
    let fs = lowercase(m.from_entity@);
    let ts = lowercase(m.to_entity@);
    let fp = pascal(m.from_entity@);
    let tp = pascal(m.to_entity@);
    let alg = algorithm_text(m);
    "/// Data migration: "@ + m.from_entity@ + " → "@ + m.to_entity@ + "\n"@ + "/// Description: "@
        + or_text(m.description, ""@) + "\n"@ + "/// From version: "@ + or_text(m.from_version, "previous"@)
        + " → To version: "@ + or_text(m.to_version, "current"@) + "\n"@ + "///\n"@ + "/// "@ + alg + "\n"@
        + "pub fn migrate_"@ + fs + "_to_"@ + ts + "(source: "@ + fp + ") -> "@ + tp + " {\n"@
        + "    // Algorithm: "@ + alg + "\n"@ + "    // Steps:\n"@ + "    //   1. Transform fields\n"@
        + "    //   2. Validate constraints\n"@ + "    //   3. Return new entity\n"@
        + "    todo!(\"Migration: {} -> {}\", from_ver, to_ver)\n"@ + "}\n"@ + "\n"@ + "#[cfg(test)]\n"@
        + "mod tests {\n"@ + "    use super::*;\n"@ + "\n"@ + "    #[test]\n"@ + "    fn test_migrate_"@ + fs + "_to_"@
        + ts + "() {\n"@ + "        let _result = migrate_"@ + fs + "_to_"@ + ts + "("@ + fp + " {});\n"@
        + "    }\n"@ + "}"@
}

/// The TypeScript migration function.
pub open spec fn ts_migration_code(m: DataMigration) -> Seq<char> {
    let fp = pascal(m.from_entity@);
    let tp = pascal(m.to_entity@);
    "/**\n * Data migration: "@ + m.from_entity@ + " → "@ + m.to_entity@ + "\n * Description: "@
        + or_text(m.description, ""@) + "\n * Algorithm: "@ + algorithm_text(m) + "\n */\nexport function migrate"@
        + tp + "(source: "@ + fp + "): "@ + tp + " {\n    // TODO: Implement migration logic\n"@
        + "    // Steps:\n    //   1. Transform fields\n    //   2. Validate constraints\n"@
        + "    //   3. Return new entity\n    throw new Error('Migration not implemented');\n}\n"@
}

/// The Python migration function.
pub open spec fn python_migration_code(m: DataMigration) -> Seq<char> {
    let fp = pascal(m.from_entity@);
    let tp = pascal(m.to_entity@);
    "'''Data migration: "@ + fp + " -> "@ + tp + "\nDescription: "@ + or_text(m.description, ""@) + "\nAlgorithm: "@
        + algorithm_text(m) + "\n'''\nfrom typing import Optional\n\n\ndef migrate_"@ + snake(m.from_entity@)
        + "_to_"@ + snake(m.to_entity@) + "(source: "@ + fp + ") -> "@ + tp + ":\n    raise NotImplementedError()\n"@
}

/// The migration code of a language (`None` for an unsupported one).
pub open spec fn migration_for(lang: Seq<char>, m: DataMigration) -> Option<(Seq<char>, Seq<char>)> {
    if lang == "rust"@ {
        Some(
            (
                rust_migration_code(m),
                "migration_"@ + lowercase(m.from_entity@) + "_to_"@ + lowercase(m.to_entity@) + "_rs"@,
            ),
        )
    } else if lang == "typescript"@ {
        Some((ts_migration_code(m), "migration_"@ + camel(m.from_entity@) + "_to_"@ + camel(m.to_entity@) + ".ts"@))
    } else if lang == "python"@ {
        Some(
            (
                python_migration_code(m),
                "migration_"@ + snake(m.from_entity@) + "_to_"@ + snake(m.to_entity@) + ".py"@,
            ),
        )
    } else {
        None
    }
}

fn or_default(o: &Option<String>, d: &str) -> (r: String)
    ensures
        r@ == or_text(*o, d@),
{
    match o {
        Some(s) => s.clone(),
        None => d.to_owned(),
    }
}

impl MigrationGenerator {
    /// The target language of the generator.
    pub closed spec fn language(&self) -> Seq<char> {
        self.target_language@
    }

    /// A generator for a target language.
    pub fn new(target_language: &str) -> (g: Self)
        ensures
            g.language() == target_language@,
    {
        MigrationGenerator { target_language: target_language.to_owned() }
    }

    /// The migration code for a migration spec in the target language, or
    /// an error naming an unsupported language.
    pub fn generate(&self, migration: &DataMigration) -> (r: Result<MigrationCode, String>)
        ensures
            match migration_for(self.language(), *migration) {
                Some((code, file)) => r matches Ok(c) && c.code@ == code && c.file_name@ == file
                    && c.from_entity@ == migration.from_entity@ && c.to_entity@ == migration.to_entity@,
                None => r matches Err(e) && e@ == "Unsupported language: "@ + self.language(),
            },
    {
        let lang = self.target_language.as_str();
        if str_eq(lang, "rust") {
            Ok(self.generate_rust(migration))
        } else if str_eq(lang, "typescript") {
            Ok(self.generate_typescript(migration))
        } else if str_eq(lang, "python") {
            Ok(self.generate_python(migration))
        } else {
            let mut e = "Unsupported language: ".to_owned();
            push_str(&mut e, lang);
            Err(e)
        }
    }

    fn generate_rust(&self, migration: &DataMigration) -> (c: MigrationCode)
        ensures
            c.code@ == rust_migration_code(*migration),
            c.file_name@ == "migration_"@ + lowercase(migration.from_entity@) + "_to_"@ + lowercase(
                migration.to_entity@,
            ) + "_rs"@,
            c.from_entity@ == migration.from_entity@,
            c.to_entity@ == migration.to_entity@,
    {
        let from_snake = to_lowercase(migration.from_entity.as_str());
        let to_snake = to_lowercase(migration.to_entity.as_str());
        let from_pascal = to_pascal_case(migration.from_entity.as_str());
        let to_pascal = to_pascal_case(migration.to_entity.as_str());
        let algorithm = or_default(&migration.algorithm, "Migration algorithm not specified");
        let from_ver = or_default(&migration.from_version, "previous");
        let to_ver = or_default(&migration.to_version, "current");
        let description = or_default(&migration.description, "");
        let mut code = "/// Data migration: ".to_owned();
        push_str(&mut code, migration.from_entity.as_str());
        push_str(&mut code, " → ");
        push_str(&mut code, migration.to_entity.as_str());
        push_str(&mut code, "\n");
        push_str(&mut code, "/// Description: ");
        push_str(&mut code, description.as_str());
        push_str(&mut code, "\n");
        push_str(&mut code, "/// From version: ");
        push_str(&mut code, from_ver.as_str());
        push_str(&mut code, " → To version: ");
        push_str(&mut code, to_ver.as_str());
        push_str(&mut code, "\n");
        push_str(&mut code, "///\n");
        push_str(&mut code, "/// ");
        push_str(&mut code, algorithm.as_str());
        push_str(&mut code, "\n");
        push_str(&mut code, "pub fn migrate_");
        push_str(&mut code, from_snake.as_str());
        push_str(&mut code, "_to_");
        push_str(&mut code, to_snake.as_str());
        push_str(&mut code, "(source: ");
        push_str(&mut code, from_pascal.as_str());
        push_str(&mut code, ") -> ");
        push_str(&mut code, to_pascal.as_str());
        push_str(&mut code, " {\n");
        push_str(&mut code, "    // Algorithm: ");
        push_str(&mut code, algorithm.as_str());
        push_str(&mut code, "\n");
        push_str(&mut code, "    // Steps:\n");
        push_str(&mut code, "    //   1. Transform fields\n");
        push_str(&mut code, "    //   2. Validate constraints\n");
        push_str(&mut code, "    //   3. Return new entity\n");
        push_str(&mut code, "    todo!(\"Migration: {} -> {}\", from_ver, to_ver)\n");
        push_str(&mut code, "}\n");
        push_str(&mut code, "\n");
        push_str(&mut code, "#[cfg(test)]\n");
        push_str(&mut code, "mod tests {\n");
        push_str(&mut code, "    use super::*;\n");
        push_str(&mut code, "\n");
        push_str(&mut code, "    #[test]\n");
        push_str(&mut code, "    fn test_migrate_");
        push_str(&mut code, from_snake.as_str());
        push_str(&mut code, "_to_");
        push_str(&mut code, to_snake.as_str());
        push_str(&mut code, "() {\n");
        push_str(&mut code, "        let _result = migrate_");
        push_str(&mut code, from_snake.as_str());
        push_str(&mut code, "_to_");
        push_str(&mut code, to_snake.as_str());
        push_str(&mut code, "(");
        push_str(&mut code, from_pascal.as_str());
        push_str(&mut code, " {});\n");
        push_str(&mut code, "    }\n");
        push_str(&mut code, "}");
        let mut file_name = "migration_".to_owned();
        push_str(&mut file_name, from_snake.as_str());
        push_str(&mut file_name, "_to_");
        push_str(&mut file_name, to_snake.as_str());
        push_str(&mut file_name, "_rs");
        MigrationCode {
            from_entity: migration.from_entity.clone(),
            to_entity: migration.to_entity.clone(),
            code,
            file_name,
        }
    }

    fn generate_typescript(&self, migration: &DataMigration) -> (c: MigrationCode)
        ensures
            c.code@ == ts_migration_code(*migration),
            c.file_name@ == "migration_"@ + camel(migration.from_entity@) + "_to_"@ + camel(migration.to_entity@)
                + ".ts"@,
            c.from_entity@ == migration.from_entity@,
            c.to_entity@ == migration.to_entity@,
    {
        let from_camel = to_camel_case(migration.from_entity.as_str());
        let to_camel = to_camel_case(migration.to_entity.as_str());
        let from_pascal = to_pascal_case(migration.from_entity.as_str());
        let to_pascal = to_pascal_case(migration.to_entity.as_str());
        let algorithm = or_default(&migration.algorithm, "Migration algorithm not specified");
        let description = or_default(&migration.description, "");
        let mut code = "/**\n * Data migration: ".to_owned();
        push_str(&mut code, migration.from_entity.as_str());
        push_str(&mut code, " → ");
        push_str(&mut code, migration.to_entity.as_str());
        push_str(&mut code, "\n * Description: ");
        push_str(&mut code, description.as_str());
        push_str(&mut code, "\n * Algorithm: ");
        push_str(&mut code, algorithm.as_str());
        push_str(&mut code, "\n */\nexport function migrate");
        push_str(&mut code, to_pascal.as_str());
        push_str(&mut code, "(source: ");
        push_str(&mut code, from_pascal.as_str());
        push_str(&mut code, "): ");
        push_str(&mut code, to_pascal.as_str());
        push_str(&mut code, " {\n    // TODO: Implement migration logic\n");
        push_str(&mut code, "    // Steps:\n    //   1. Transform fields\n    //   2. Validate constraints\n");
        push_str(&mut code, "    //   3. Return new entity\n    throw new Error('Migration not implemented');\n}\n");
        let mut file_name = "migration_".to_owned();
        push_str(&mut file_name, from_camel.as_str());
        push_str(&mut file_name, "_to_");
        push_str(&mut file_name, to_camel.as_str());
        push_str(&mut file_name, ".ts");
        MigrationCode {
            from_entity: migration.from_entity.clone(),
            to_entity: migration.to_entity.clone(),
            code,
            file_name,
        }
    }

    fn generate_python(&self, migration: &DataMigration) -> (c: MigrationCode)
        ensures
            c.code@ == python_migration_code(*migration),
            c.file_name@ == "migration_"@ + snake(migration.from_entity@) + "_to_"@ + snake(migration.to_entity@)
                + ".py"@,
            c.from_entity@ == migration.from_entity@,
            c.to_entity@ == migration.to_entity@,
    {
        let from_snake = to_snake_case(migration.from_entity.as_str());
        let to_snake = to_snake_case(migration.to_entity.as_str());
        let from_pascal = to_pascal_case(migration.from_entity.as_str());
        let to_pascal = to_pascal_case(migration.to_entity.as_str());
        let algorithm = or_default(&migration.algorithm, "Migration algorithm not specified");
        let description = or_default(&migration.description, "");
        let mut code = "'''Data migration: ".to_owned();
        push_str(&mut code, from_pascal.as_str());
        push_str(&mut code, " -> ");
        push_str(&mut code, to_pascal.as_str());
        push_str(&mut code, "\nDescription: ");
        push_str(&mut code, description.as_str());
        push_str(&mut code, "\nAlgorithm: ");
        push_str(&mut code, algorithm.as_str());
        push_str(&mut code, "\n'''\nfrom typing import Optional\n\n\ndef migrate_");
        push_str(&mut code, from_snake.as_str());
        push_str(&mut code, "_to_");
        push_str(&mut code, to_snake.as_str());
        push_str(&mut code, "(source: ");
        push_str(&mut code, from_pascal.as_str());
        push_str(&mut code, ") -> ");
        push_str(&mut code, to_pascal.as_str());
        push_str(&mut code, ":\n    raise NotImplementedError()\n");
        let mut file_name = "migration_".to_owned();
        push_str(&mut file_name, from_snake.as_str());
        push_str(&mut file_name, "_to_");
        push_str(&mut file_name, to_snake.as_str());
        push_str(&mut file_name, ".py");
        MigrationCode {
            from_entity: migration.from_entity.clone(),
            to_entity: migration.to_entity.clone(),
            code,
            file_name,
        }
    }
}

} // verus!
