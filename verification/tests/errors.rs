use naromat::errors::DirectoryProcessError;
use naromat::errors::FileProcessError;
use naromat::errors::InvalidPathError;
use naromat::errors::TextFileOutputError;

#[test]
fn output_error_messages_name_the_failure() {
    let create = TextFileOutputError::CannotCreate(String::from("denied"));
    assert_eq!(create.message(), "Cannot create error: denied");
    let write = TextFileOutputError::CannotWrite(String::from("disk full"));
    assert_eq!(write.message(), "Cannot write error: disk full");
    let flush = TextFileOutputError::CannotFlush(String::from("closed"));
    assert_eq!(flush.message(), "Cannot flush error: closed");
    let exists = TextFileOutputError::AlreadyExists(String::from("./out.txt"));
    assert_eq!(
        exists.message(),
        "Already exists error: File ./out.txt is already exists"
    );
}

#[test]
fn process_error_messages_are_fixed() {
    let file_error = FileProcessError::LoadError(String::from("missing"));
    assert_eq!(file_error.message(), "File process failed");
    let dir_error = DirectoryProcessError::Other;
    assert_eq!(dir_error.message(), "File process failed");
}

#[test]
fn invalid_path_message_names_the_path() {
    let error = InvalidPathError::FileNotFound(String::from("./no/such.txt"));
    assert_eq!(
        error.message(),
        "Not exists error: File ./no/such.txt is not found"
    );
}
