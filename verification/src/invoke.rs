//! Whole invocations against the engine in memory: a command is started,
//! each call that it asks for is answered by the engine, and what it ends in
//! is stated outright, without the steps in between.

use crate::engine::{EngineCallView, EngineReplyView, Fault, ItemView};
use crate::executor::{
    decoded, outcome_of, respond, resume, resumed, start, started, step_within_limits,
    CommandOutcomeView, Handler, PendingView, RejectionView, Response, ResponseView, Step,
    StepView, Terminal, TerminalView,
};
use crate::memory::{
    create_served, describe_served, engine_failure, holds, lemma_row_at, lemma_table_at, page_end,
    put_served, scan_served, served, EngineView, MemoryEngine, TableView,
};
use crate::model::{Field, TableSpecView};
use crate::projection::{projected, ProjectionView};
use crate::request::{decode_create, decode_read, Command, CommandView, Payload, PayloadValueView};
use crate::store::{
    creation_request, describes, found_fault, key_like, key_schema_of, page_decodable,
    page_records, row_decodable, row_names, row_record, scan_begin, scan_request, store_fault,
    CreatePhase, CreateTableView, ScanLimits, ScanView, StoreErrorKind,
};
use vstd::prelude::*;

verus! {

/// Each of `rows` under `projection`.
pub open spec fn rows_under(
    rows: Seq<Map<Seq<char>, Seq<char>>>,
    projection: ProjectionView,
) -> Seq<Map<Seq<char>, Seq<char>>> {
    Seq::new(rows.len(), |i: int| projected(rows[i], projection))
}

/// Whether a table of `count` rows can be read within `limits` in pages of
/// `page_size` rows.
pub open spec fn readable_within(count: nat, page_size: nat, limits: ScanLimits) -> bool {
    count <= limits.max_rows && count <= limits.max_pages * page_size
}

/// What the creation of a table comes to.
///
/// A table that is not there is created. One that is there with the same
/// partition key is left as it is, and the creation succeeds all the same.
/// One that is there with another key turns the creation down.
pub open spec fn create_completed(engine: EngineView, spec: TableSpecView) -> (
    EngineView,
    TerminalView,
) {
    if !engine.has_table(spec.name) {
        (
            engine.with_table(spec.name, spec.partition_key),
            TerminalView::Succeeded(CommandOutcomeView::Created(spec)),
        )
    } else if engine.table(spec.name).partition_key == spec.partition_key {
        (engine, TerminalView::Succeeded(CommandOutcomeView::Created(spec)))
    } else {
        (engine, TerminalView::Rejected(RejectionView::ConflictError(spec.name)))
    }
}

/// What the reading of a table comes to.
///
/// A table that is there and can be read within the limits gives all its
/// rows, in order, each under the projection. One that is too large gives
/// none of them.
pub open spec fn read_completed(
    engine: EngineView,
    table: Seq<char>,
    projection: ProjectionView,
    limits: ScanLimits,
) -> TerminalView {
    if limits.max_pages == 0 {
        TerminalView::Failed(found_fault(StoreErrorKind::LimitExceeded, table))
    } else if !engine.has_table(table) {
        TerminalView::Failed(found_fault(StoreErrorKind::NotFound, table))
    } else if !readable_within(engine.table(table).rows.len(), engine.page_size, limits) {
        TerminalView::Failed(found_fault(StoreErrorKind::LimitExceeded, table))
    } else {
        TerminalView::Succeeded(
            CommandOutcomeView::Rows(rows_under(engine.table(table).rows, projection)),
        )
    }
}

/// What a command comes to on an engine: the engine afterwards and the
/// terminal state.
pub open spec fn completed(engine: EngineView, command: CommandView, limits: ScanLimits) -> (
    EngineView,
    TerminalView,
) {
    match command {
        CommandView::CreateTable { table_name, key_name } => if table_name.len() == 0 {
            (engine, TerminalView::Rejected(RejectionView::MalformedRequest(Field::TableName)))
        } else if key_name.len() == 0 {
            (engine, TerminalView::Rejected(RejectionView::MalformedRequest(Field::KeyName)))
        } else {
            create_completed(engine, TableSpecView { name: table_name, partition_key: key_name })
        },
        CommandView::ReadAll { table_name, projection } => if table_name.len() == 0 {
            (engine, TerminalView::Rejected(RejectionView::MalformedRequest(Field::TableName)))
        } else {
            (engine, read_completed(engine, table_name, projection, limits))
        },
    }
}

/// What an invocation comes to: the engine afterwards and the response.
pub open spec fn handled(
    engine: EngineView,
    req_id: Seq<char>,
    handler: Handler,
    payload: Map<Seq<char>, PayloadValueView>,
    limits: ScanLimits,
) -> (EngineView, ResponseView) {
    match decoded(handler, payload) {
        Ok(command) => {
            let (after, terminal) = completed(engine, command, limits);
            (after, ResponseView { req_id, outcome: outcome_of(terminal) })
        },
        Err(malformed) => (
            engine,
            ResponseView {
                req_id,
                outcome: outcome_of(
                    TerminalView::Rejected(RejectionView::MalformedRequest(malformed.field)),
                ),
            },
        ),
    }
}

/// Whether a creation that waits for a reply is where it has to be: it has
/// asked to create the table, or, for a table that is there, to describe it.
pub open spec fn creating(
    engine: EngineView,
    spec: TableSpecView,
    operation: CreateTableView,
    call: EngineCallView,
) -> bool {
    &&& spec.valid()
    &&& operation.spec == spec
    &&& match operation.phase {
        CreatePhase::Creating => call == EngineCallView::CreateTable(creation_request(spec)),
        CreatePhase::Confirming => engine.has_table(spec.name) && call
            == EngineCallView::DescribeTable(spec.name),
    }
}

/// Whether a reading that waits for a reply is where it has to be: it holds
/// the rows of the full pages that it has read, and has asked for the page
/// behind them.
pub open spec fn reading(engine: EngineView, operation: ScanView, call: EngineCallView) -> bool {
    let read = (operation.pages - 1) * engine.page_size;
    &&& operation.table.len() > 0
    &&& operation.within_limits()
    &&& if operation.pages == 1 {
        &&& operation.rows.len() == 0
        &&& call == EngineCallView::Scan(
            scan_request(operation.table, operation.projection, None),
        )
    } else {
        let table = engine.table(operation.table);
        &&& engine.has_table(operation.table)
        &&& 0 < read < table.rows.len()
        &&& operation.rows == rows_under(table.rows.take(read), operation.projection)
        &&& call == EngineCallView::Scan(
            scan_request(
                operation.table,
                operation.projection,
                Some(table.token_after(table.rows[read - 1])),
            ),
        )
    }
}

/// Whether an invocation of `command` that began on the engine `before` is
/// on its way to what the command comes to.
pub open spec fn on_course(
    before: EngineView,
    now: EngineView,
    command: CommandView,
    limits: ScanLimits,
    step: StepView,
) -> bool {
    match step {
        StepView::Finished(terminal) => (now, terminal) == completed(before, command, limits),
        StepView::Call(pending, call) => now == before && match command {
            CommandView::CreateTable { table_name, key_name } => {
                &&& pending matches PendingView::Create(operation)
                &&& creating(
                    before,
                    TableSpecView { name: table_name, partition_key: key_name },
                    operation,
                    call,
                )
            },
            CommandView::ReadAll { table_name, projection } => {
                &&& pending matches PendingView::Read(operation)
                &&& operation.table == table_name
                &&& operation.projection == projection
                &&& operation.limits == limits
                &&& reading(before, operation, call)
            },
        },
    }
}

/// An item that holds a row can be read under every projection, and gives
/// the row under that projection.
pub proof fn lemma_holds_projected(
    item: ItemView,
    row: Map<Seq<char>, Seq<char>>,
    projection: ProjectionView,
)
    requires
        holds(item, row),
    ensures
        row_decodable(item, projection),
        row_record(item, projection) == projected(row, projection),
{
    let all = row_record(item, ProjectionView::All);
    let under = row_record(item, projection);
    let wanted = projected(row, projection);
    assert forall|name: Seq<char>| under.contains_key(name) <==> wanted.contains_key(name) by {
        assert(all.contains_key(name) <==> row_names(item, name));
        match projection {
            ProjectionView::All => {},
            ProjectionView::Only(names) => {
                assert(names.to_set().contains(name) <==> names.contains(name));
            },
        }
    }
    assert forall|name: Seq<char>| under.contains_key(name) implies under[name]
        == wanted[name] by {
        assert(all.contains_key(name));
        assert(under[name] == all[name]);
    }
    assert(under =~= wanted);
}

/// A command starts on its course.
pub proof fn lemma_started_on_course(engine: EngineView, command: CommandView, limits: ScanLimits)
    ensures
        on_course(engine, engine, command, limits, started(command, limits)),
{
    match command {
        CommandView::CreateTable { table_name, key_name } => {},
        CommandView::ReadAll { table_name, projection } => {
            if table_name.len() > 0 && limits.max_pages > 0 {
                let progress = scan_begin(table_name, projection, limits);
                assert(progress is Call);
                assert((1 - 1) * engine.page_size == 0) by (nonlinear_arith);
            }
        },
    }
}

/// A creation that is on its course stays on it with the engine's reply.
pub proof fn lemma_create_on_course(
    engine: EngineView,
    spec: TableSpecView,
    operation: CreateTableView,
    call: EngineCallView,
    after: EngineView,
    reply: EngineReplyView,
    limits: ScanLimits,
)
    requires
        engine.valid(),
        creating(engine, spec, operation, call),
        served(engine, call, after, reply),
    ensures
        on_course(
            engine,
            after,
            CommandView::CreateTable { table_name: spec.name, key_name: spec.partition_key },
            limits,
            resumed(PendingView::Create(operation), reply),
        ),
{
    let request = creation_request(spec);
    assert(request.key_schema[0].attribute_name == spec.partition_key);
    match operation.phase {
        CreatePhase::Creating => {
            assert((after, reply) == create_served(engine, request));
        },
        CreatePhase::Confirming => {
            let existing = engine.table(spec.name).partition_key;
            assert(reply == describe_served(engine, spec.name));
            assert(key_schema_of(existing)[0].attribute_name == existing);
            assert(key_schema_of(spec.partition_key)[0].attribute_name == spec.partition_key);
            assert(describes(reply->Described_0, spec) <==> existing == spec.partition_key);
        },
    }
}

/// A reading that is on its course stays on it with the engine's reply.
pub proof fn lemma_read_on_course(
    engine: EngineView,
    operation: ScanView,
    call: EngineCallView,
    reply: EngineReplyView,
)
    requires
        engine.valid(),
        reading(engine, operation, call),
        served(engine, call, engine, reply),
    ensures
        on_course(
            engine,
            engine,
            CommandView::ReadAll { table_name: operation.table, projection: operation.projection },
            operation.limits,
            resumed(PendingView::Read(operation), reply),
        ),
{
    let name = operation.table;
    let projection = operation.projection;
    let limits = operation.limits;
    let command = CommandView::ReadAll { table_name: name, projection };
    let size = engine.page_size as int;
    let pages = operation.pages as int;
    let read = (pages - 1) * size;
    let request = call->Scan_0;
    let next = resumed(PendingView::Read(operation), reply);
    assert(scan_served(engine, request, reply));
    assert((pages - 1) * size + size == pages * size) by (nonlinear_arith);
    assert(pages * size <= limits.max_pages * size) by (nonlinear_arith)
        requires
            pages <= limits.max_pages,
            size >= 1,
    ;
    if pages == 1 {
        assert(read == 0) by (nonlinear_arith)
            requires
                read == (pages - 1) * size,
                pages == 1,
        ;
    }
    if !engine.has_table(name) {
        assert(reply == EngineReplyView::Failed(engine_failure(Fault::NotFound, name)));
        assert(store_fault(engine_failure(Fault::NotFound, name), true) == found_fault(
            StoreErrorKind::NotFound,
            name,
        ));
    } else {
        let at = engine.table_index(name);
        let table = engine.table(name);
        assert(engine.tables[at].valid());
        let count = table.rows.len() as int;
        if pages > 1 {
            lemma_row_at(table, read - 1);
            let key = table.token_after(table.rows[read - 1]);
            assert(key[0].value->S_0 == table.rows[read - 1][table.partition_key]);
        }
        assert(table.page_start(request.exclusive_start_key) == Some(read));
        let end = page_end(table, read, engine.page_size);
        let page = reply->Page_0;
        assert(reply is Page);
        assert(page.items.len() == end - read);
        assert(operation.rows.len() == read);
        if operation.rows.len() + page.items.len() > limits.max_rows {
            assert(count > limits.max_rows);
        } else {
            assert forall|k: int| 0 <= k < page.items.len() implies row_decodable(
                #[trigger] page.items[k],
                projection,
            ) by {
                lemma_holds_projected(page.items[k], table.rows[read + k], projection);
            }
            assert(page_decodable(page.items, projection));
            let rows = operation.rows + page_records(page.items, projection);
            let wanted = rows_under(table.rows.take(end), projection);
            assert forall|i: int| 0 <= i < end implies rows[i] == wanted[i] by {
                if i < read {
                    assert(rows[i] == operation.rows[i]);
                    assert(table.rows.take(read)[i] == table.rows[i]);
                } else {
                    assert(rows[i] == page_records(page.items, projection)[i - read]);
                    lemma_holds_projected(page.items[i - read], table.rows[read + (i - read)], projection);
                }
            }
            assert(rows =~= wanted);
            if end < count {
                let token = table.token_after(table.rows[end - 1]);
                assert(page.last_evaluated_key == Some(token));
                assert(key_like(token));
                assert(end == read + size);
                if pages >= limits.max_pages {
                    assert(count > limits.max_pages * size);
                } else {
                    assert(next is Call);
                    assert((pages + 1 - 1) * size == end) by (nonlinear_arith)
                        requires
                            end == pages * size,
                    ;
                }
            } else {
                assert(page.last_evaluated_key is None);
                assert(table.rows.take(end) =~= table.rows);
                assert(count <= pages * size);
                assert(readable_within(table.rows.len(), engine.page_size, limits));
            }
        }
    }
}

/// A bound on the number of calls that an invocation still asks for.
pub open spec fn calls_ahead(step: StepView) -> nat {
    match step {
        StepView::Call(pending, _) => pending.calls_left() + 1,
        StepView::Finished(_) => 0,
    }
}

/// Runs `command` on `engine` to its terminal state.
#[verifier::loop_isolation(false)]
pub fn run(engine: &mut MemoryEngine, command: Command, limits: ScanLimits) -> (terminal: Terminal)
    ensures
        (final(engine)@, terminal@) == completed(old(engine)@, command@, limits),
{
    let ghost before = engine@;
    let ghost asked = command@;
    let mut step = start(command, limits);
    proof {
        lemma_started_on_course(before, asked, limits);
    }
    loop
        invariant
            on_course(before, engine@, asked, limits, step@),
            step_within_limits(step@),
        decreases calls_ahead(step@),
    {
        match step {
            Step::Finished(terminal) => {
                return terminal;
            },
            Step::Call(pending, call) => {
                let reply = engine.serve(&call);
                proof {
                    crate::executor::calls_are_bounded(pending@, reply@);
                    match asked {
                        CommandView::CreateTable { table_name, key_name } => {
                            lemma_create_on_course(
                                before,
                                TableSpecView { name: table_name, partition_key: key_name },
                                pending@->Create_0,
                                call@,
                                engine@,
                                reply@,
                                limits,
                            );
                        },
                        CommandView::ReadAll { table_name, projection } => {
                            lemma_read_on_course(before, pending@->Read_0, call@, reply@);
                        },
                    }
                }
                step = resume(pending, reply);
            },
        }
    }
}

/// Handles one invocation on `engine`: decodes the payload, runs the command
/// and puts the request identifier to what it came to.
pub fn handle(
    engine: &mut MemoryEngine,
    req_id: String,
    handler: Handler,
    payload: &Payload,
    limits: ScanLimits,
) -> (response: Response)
    ensures
        (final(engine)@, response@) == handled(old(engine)@, req_id@, handler, payload@, limits),
{
    let decoded = match handler {
        Handler::Create => decode_create(payload),
        Handler::Read => decode_read(payload),
    };
    match decoded {
        Ok(command) => {
            let terminal = run(engine, command, limits);
            respond(req_id, terminal)
        },
        Err(malformed) => respond(
            req_id,
            Terminal::Rejected(crate::executor::Rejection::MalformedRequest(malformed.field)),
        ),
    }
}

/// A table that was added is found, with the key it was added with.
pub proof fn lemma_with_table(engine: EngineView, name: Seq<char>, partition_key: Seq<char>)
    requires
        engine.valid(),
        !engine.has_table(name),
        name.len() > 0,
        partition_key.len() > 0,
    ensures
        engine.with_table(name, partition_key).valid(),
        engine.with_table(name, partition_key).has_table(name),
        engine.with_table(name, partition_key).table(name) == (TableView {
            name,
            partition_key,
            rows: Seq::empty(),
        }),
{
    let after = engine.with_table(name, partition_key);
    let last = engine.tables.len() as int;
    assert(after.tables[last].name == name);
    assert forall|i: int, j: int| 0 <= i < j < after.tables.len() implies (
    #[trigger] after.tables[i]).name != (#[trigger] after.tables[j]).name by {
        assert(after.tables[i] == engine.tables[i]);
        if j < last {
            assert(after.tables[j] == engine.tables[j]);
        }
    }
    assert forall|i: int| 0 <= i < after.tables.len() implies (#[trigger] after.tables[i]).valid() by {
        if i < last {
            assert(after.tables[i] == engine.tables[i]);
        }
    }
    lemma_table_at(after, last);
}

/// A table whose rows were replaced is found, with the new rows.
pub proof fn lemma_with_rows(
    engine: EngineView,
    name: Seq<char>,
    rows: Seq<Map<Seq<char>, Seq<char>>>,
)
    requires
        engine.valid(),
        engine.has_table(name),
    ensures
        engine.with_rows(name, rows).has_table(name),
        engine.with_rows(name, rows).table(name) == (TableView {
            name,
            partition_key: engine.table(name).partition_key,
            rows,
        }),
        engine.with_rows(name, rows).page_size == engine.page_size,
{
    let after = engine.with_rows(name, rows);
    let at = engine.table_index(name);
    assert(after.tables[at].name == name);
    let found = after.table_index(name);
    if found != at {
        assert(after.tables[found] == engine.tables[found]);
        assert(engine.tables[found].name == engine.tables[at].name);
    }
}

/// Creating a table a second time with the same names succeeds like the
/// first time, and leaves the engine as the first time left it. The table
/// must not be there beforehand with another partition key.
pub proof fn create_is_idempotent(engine: EngineView, spec: TableSpecView, limits: ScanLimits)
    requires
        engine.valid(),
        spec.valid(),
        engine.has_table(spec.name) ==> engine.table(spec.name).partition_key
            == spec.partition_key,
    ensures
        ({
            let command = CommandView::CreateTable {
                table_name: spec.name,
                key_name: spec.partition_key,
            };
            let first = completed(engine, command, limits);
            let second = completed(first.0, command, limits);
            &&& first.1 == TerminalView::Succeeded(CommandOutcomeView::Created(spec))
            &&& second.1 == first.1
            &&& second.0 == first.0
        }),
{
    if !engine.has_table(spec.name) {
        lemma_with_table(engine, spec.name, spec.partition_key);
    }
}

/// Creating a table that was created with one partition key again with
/// another is turned down as a conflict, and changes nothing. The table must
/// not be there beforehand with a key other than the first.
pub proof fn create_with_other_key_conflicts(
    engine: EngineView,
    name: Seq<char>,
    first_key: Seq<char>,
    second_key: Seq<char>,
    limits: ScanLimits,
)
    requires
        engine.valid(),
        name.len() > 0,
        first_key.len() > 0,
        second_key.len() > 0,
        first_key != second_key,
        engine.has_table(name) ==> engine.table(name).partition_key == first_key,
    ensures
        ({
            let first = completed(
                engine,
                CommandView::CreateTable { table_name: name, key_name: first_key },
                limits,
            );
            let second = completed(
                first.0,
                CommandView::CreateTable { table_name: name, key_name: second_key },
                limits,
            );
            &&& first.1 is Succeeded
            &&& second.1 == TerminalView::Rejected(RejectionView::ConflictError(name))
            &&& second.0 == first.0
        }),
{
    if !engine.has_table(name) {
        lemma_with_table(engine, name, first_key);
    }
}

/// Reading a table without rows gives no rows, and no failure. The limits
/// must allow one page.
pub proof fn empty_table_reads_empty(
    engine: EngineView,
    name: Seq<char>,
    projection: ProjectionView,
    limits: ScanLimits,
)
    requires
        engine.valid(),
        name.len() > 0,
        engine.has_table(name),
        engine.table(name).rows.len() == 0,
        limits.max_pages >= 1,
    ensures
        completed(
            engine,
            CommandView::ReadAll { table_name: name, projection },
            limits,
        ) == (
            engine,
            TerminalView::Succeeded(
                CommandOutcomeView::Rows(Seq::<Map<Seq<char>, Seq<char>>>::empty()),
            ),
        ),
{
    assert(limits.max_pages * engine.page_size >= 0) by (nonlinear_arith)
        requires
            limits.max_pages >= 1,
            engine.page_size >= 1,
    ;
    assert(rows_under(engine.table(name).rows, projection) =~= Seq::<
        Map<Seq<char>, Seq<char>>,
    >::empty());
}

/// Reading a table gives as many records as the table has rows, in the
/// rows' order. Each record holds the attributes of its row that the
/// projection lets through, with the row's values, and no others. The table
/// must be readable within the limits.
pub proof fn read_returns_every_row(
    engine: EngineView,
    name: Seq<char>,
    projection: ProjectionView,
    limits: ScanLimits,
)
    requires
        engine.valid(),
        name.len() > 0,
        engine.has_table(name),
        limits.max_pages >= 1,
        readable_within(engine.table(name).rows.len(), engine.page_size, limits),
    ensures
        ({
            let stored = engine.table(name).rows;
            let ended = completed(
                engine,
                CommandView::ReadAll { table_name: name, projection },
                limits,
            );
            &&& ended.0 == engine
            &&& ended.1 matches TerminalView::Succeeded(CommandOutcomeView::Rows(rows))
            &&& rows.len() == stored.len()
            &&& forall|i: int, attribute: Seq<char>|
                0 <= i < rows.len() ==> (#[trigger] rows[i].contains_key(attribute)
                    <==> projection.admits(attribute) && stored[i].contains_key(attribute))
            &&& forall|i: int, attribute: Seq<char>|
                0 <= i < rows.len() && #[trigger] rows[i].contains_key(attribute)
                    ==> rows[i][attribute] == stored[i][attribute]
        }),
{
    let stored = engine.table(name).rows;
    let rows = rows_under(stored, projection);
    assert forall|i: int, attribute: Seq<char>| 0 <= i < rows.len() implies (
    #[trigger] rows[i].contains_key(attribute) <==> projection.admits(attribute)
        && stored[i].contains_key(attribute)) by {
        match projection {
            ProjectionView::All => {},
            ProjectionView::Only(names) => {
                assert(names.to_set().contains(attribute) <==> names.contains(attribute));
            },
        }
    }
}

/// A row that was written is read back: the reading holds the record that
/// the row gives under the projection, with the values that were written.
/// The table must be readable within the limits once the row is written.
pub proof fn written_row_reads_back(
    engine: EngineView,
    name: Seq<char>,
    row: Map<Seq<char>, Seq<char>>,
    projection: ProjectionView,
    limits: ScanLimits,
)
    requires
        engine.valid(),
        name.len() > 0,
        limits.max_pages >= 1,
        put_served(engine, name, row).1 is Ok,
        readable_within(
            put_served(engine, name, row).0.table(name).rows.len(),
            engine.page_size,
            limits,
        ),
    ensures
        ({
            let written = put_served(engine, name, row).0;
            let ended = completed(
                written,
                CommandView::ReadAll { table_name: name, projection },
                limits,
            );
            &&& ended.1 matches TerminalView::Succeeded(CommandOutcomeView::Rows(rows))
            &&& rows.contains(projected(row, projection))
        }),
{
    let table = engine.table(name);
    let key = row[table.partition_key];
    let written = put_served(engine, name, row).0;
    if table.has_key(key) {
        let at = table.key_index(key);
        let stored = table.rows.update(at, row);
        lemma_with_rows(engine, name, stored);
        assert(rows_under(stored, projection)[at] == projected(row, projection));
    } else {
        let stored = table.rows.push(row);
        lemma_with_rows(engine, name, stored);
        assert(rows_under(stored, projection)[table.rows.len() as int] == projected(
            row,
            projection,
        ));
    }
}

} // verus!
