use scpi::command::{Command, Context, Device};
use scpi::dispatch::Report;
use scpi::error::{Error, ErrorCode};
use scpi::ieee488::{
    ClsCommand, EseCommand, EsrCommand, IdnCommand, OpcCommand, RstCommand, SreCommand,
    StbCommand, TstCommand, WaiCommand,
};
use scpi::response::Response;
use scpi::scpi1999::{
    AbortCommand, Abort, CondCommand, EnabCommand, EventCommand, NtrCommand, PtrCommand,
    StatPresCommand,
};
use scpi::status::{Operation, Questionable, Status};
use scpi::tokenizer::Tokenizer;
use scpi::tree::Tree;

struct TestDevice {
    resets: usize,
    aborts: usize,
    self_test: Result<(), Error>,
}

impl TestDevice {
    fn new() -> Self {
        TestDevice {
            resets: 0,
            aborts: 0,
            self_test: Ok(()),
        }
    }
}

impl Device for TestDevice {
    fn exec_cls(&mut self) -> Result<(), Error> {
        Ok(())
    }

    fn exec_rst(&mut self) -> Result<(), Error> {
        self.resets += 1;
        Ok(())
    }

    fn exec_tst(&mut self) -> Result<(), Error> {
        self.self_test
    }

    fn exec_opc(&mut self) -> Result<(), Error> {
        Ok(())
    }

    fn exec_preset(&mut self) -> Result<(), Error> {
        Ok(())
    }
}

impl Abort for TestDevice {
    fn abort(&mut self) {
        self.aborts += 1;
    }
}

enum Handler {
    Cls(ClsCommand),
    Ese(EseCommand),
    Esr(EsrCommand),
    Idn(IdnCommand<'static>),
    Opc(OpcCommand),
    Rst(RstCommand),
    Sre(SreCommand),
    Stb(StbCommand),
    Tst(TstCommand),
    Wai(WaiCommand),
    Pres(StatPresCommand),
    OperEvent(EventCommand<Operation>),
    OperCond(CondCommand<Operation>),
    OperEnab(EnabCommand<Operation>),
    OperNtr(NtrCommand<Operation>),
    OperPtr(PtrCommand<Operation>),
    QuesEvent(EventCommand<Questionable>),
    QuesCond(CondCommand<Questionable>),
    QuesEnab(EnabCommand<Questionable>),
    QuesNtr(NtrCommand<Questionable>),
    QuesPtr(PtrCommand<Questionable>),
    Abort(AbortCommand),
    Dc,
    Ac,
    Failing,
    Greedy,
}

impl Command<TestDevice> for Handler {
    fn event<'a>(
        &self,
        device: &mut TestDevice,
        status: &mut Status,
        context: &mut Context,
        args: &mut Tokenizer<'a>,
    ) -> Result<(), Error> {
        match self {
            Handler::Cls(c) => c.event(device, status, context, args),
            Handler::Ese(c) => c.event(device, status, context, args),
            Handler::Esr(c) => c.event(device, status, context, args),
            Handler::Idn(c) => c.event(device, status, context, args),
            Handler::Opc(c) => c.event(device, status, context, args),
            Handler::Rst(c) => c.event(device, status, context, args),
            Handler::Sre(c) => c.event(device, status, context, args),
            Handler::Stb(c) => c.event(device, status, context, args),
            Handler::Tst(c) => c.event(device, status, context, args),
            Handler::Wai(c) => c.event(device, status, context, args),
            Handler::Pres(c) => c.event(device, status, context, args),
            Handler::OperEvent(c) => c.event(device, status, context, args),
            Handler::OperCond(c) => c.event(device, status, context, args),
            Handler::OperEnab(c) => c.event(device, status, context, args),
            Handler::OperNtr(c) => c.event(device, status, context, args),
            Handler::OperPtr(c) => c.event(device, status, context, args),
            Handler::QuesEvent(c) => c.event(device, status, context, args),
            Handler::QuesCond(c) => c.event(device, status, context, args),
            Handler::QuesEnab(c) => c.event(device, status, context, args),
            Handler::QuesNtr(c) => c.event(device, status, context, args),
            Handler::QuesPtr(c) => c.event(device, status, context, args),
            Handler::Abort(c) => c.event(device, status, context, args),
            Handler::Dc => Err(Error::new(ErrorCode::UndefinedHeader)),
            Handler::Ac => Ok(()),
            Handler::Failing => Err(Error::new(ErrorCode::ExecutionError)),
            Handler::Greedy => {
                while let Some(_) = args.next_data(true)? {}
                Ok(())
            }
        }
    }

    fn query<'a>(
        &self,
        device: &mut TestDevice,
        status: &mut Status,
        context: &mut Context,
        args: &mut Tokenizer<'a>,
        response: &mut Response,
    ) -> Result<(), Error> {
        match self {
            Handler::Cls(c) => c.query(device, status, context, args, response),
            Handler::Ese(c) => c.query(device, status, context, args, response),
            Handler::Esr(c) => c.query(device, status, context, args, response),
            Handler::Idn(c) => c.query(device, status, context, args, response),
            Handler::Opc(c) => c.query(device, status, context, args, response),
            Handler::Rst(c) => c.query(device, status, context, args, response),
            Handler::Sre(c) => c.query(device, status, context, args, response),
            Handler::Stb(c) => c.query(device, status, context, args, response),
            Handler::Tst(c) => c.query(device, status, context, args, response),
            Handler::Wai(c) => c.query(device, status, context, args, response),
            Handler::Pres(c) => c.query(device, status, context, args, response),
            Handler::OperEvent(c) => c.query(device, status, context, args, response),
            Handler::OperCond(c) => c.query(device, status, context, args, response),
            Handler::OperEnab(c) => c.query(device, status, context, args, response),
            Handler::OperNtr(c) => c.query(device, status, context, args, response),
            Handler::OperPtr(c) => c.query(device, status, context, args, response),
            Handler::QuesEvent(c) => c.query(device, status, context, args, response),
            Handler::QuesCond(c) => c.query(device, status, context, args, response),
            Handler::QuesEnab(c) => c.query(device, status, context, args, response),
            Handler::QuesNtr(c) => c.query(device, status, context, args, response),
            Handler::QuesPtr(c) => c.query(device, status, context, args, response),
            Handler::Abort(c) => c.query(device, status, context, args, response),
            Handler::Dc => {
                response.character(b"1.23")?;
                response.finish()
            }
            Handler::Ac => Err(Error::new(ErrorCode::UndefinedHeader)),
            Handler::Failing => {
                response.character(b"partial")?;
                Err(Error::new(ErrorCode::ExecutionError))
            }
            Handler::Greedy => Err(Error::new(ErrorCode::UndefinedHeader)),
        }
    }
}

struct Bench {
    tree: Tree<Handler>,
    device: TestDevice,
    status: Status,
    sens: usize,
    volt: usize,
    dc: usize,
    oper: usize,
    oper_event: usize,
}

fn bench() -> Bench {
    let mut tree: Tree<Handler> = Tree::new();
    let idn = IdnCommand {
        manufacturer: b"ACME",
        model: b"X1",
        serial: b"0",
        firmware: b"0",
    };
    tree.add(0, b"*CLS", false, Some(Handler::Cls(ClsCommand))).unwrap();
    tree.add(0, b"*ESE", false, Some(Handler::Ese(EseCommand))).unwrap();
    tree.add(0, b"*ESR", false, Some(Handler::Esr(EsrCommand))).unwrap();
    tree.add(0, b"*IDN", false, Some(Handler::Idn(idn))).unwrap();
    tree.add(0, b"*OPC", false, Some(Handler::Opc(OpcCommand))).unwrap();
    tree.add(0, b"*RST", false, Some(Handler::Rst(RstCommand))).unwrap();
    tree.add(0, b"*SRE", false, Some(Handler::Sre(SreCommand))).unwrap();
    tree.add(0, b"*STB", false, Some(Handler::Stb(StbCommand))).unwrap();
    tree.add(0, b"*TST", false, Some(Handler::Tst(TstCommand))).unwrap();
    tree.add(0, b"*WAI", false, Some(Handler::Wai(WaiCommand))).unwrap();
    let sens = tree.add(0, b"SENSe", false, None).unwrap();
    let volt = tree.add(sens, b"VOLTage", false, None).unwrap();
    let dc = tree.add(volt, b"DC", false, Some(Handler::Dc)).unwrap();
    tree.add(volt, b"AC", false, Some(Handler::Ac)).unwrap();
    let stat = tree.add(0, b"STATus", false, None).unwrap();
    let oper = tree.add(stat, b"OPERation", false, None).unwrap();
    let oper_event = tree
        .add(oper, b"EVENt", true, Some(Handler::OperEvent(EventCommand::new())))
        .unwrap();
    tree.add(oper, b"CONDition", false, Some(Handler::OperCond(CondCommand::new()))).unwrap();
    tree.add(oper, b"ENABle", false, Some(Handler::OperEnab(EnabCommand::new()))).unwrap();
    tree.add(oper, b"NTRansition", false, Some(Handler::OperNtr(NtrCommand::new()))).unwrap();
    tree.add(oper, b"PTRansition", false, Some(Handler::OperPtr(PtrCommand::new()))).unwrap();
    let ques = tree.add(stat, b"QUEStionable", false, None).unwrap();
    tree.add(ques, b"EVENt", true, Some(Handler::QuesEvent(EventCommand::new()))).unwrap();
    tree.add(ques, b"CONDition", false, Some(Handler::QuesCond(CondCommand::new()))).unwrap();
    tree.add(ques, b"ENABle", false, Some(Handler::QuesEnab(EnabCommand::new()))).unwrap();
    tree.add(ques, b"NTRansition", false, Some(Handler::QuesNtr(NtrCommand::new()))).unwrap();
    tree.add(ques, b"PTRansition", false, Some(Handler::QuesPtr(PtrCommand::new()))).unwrap();
    tree.add(stat, b"PRESet", false, Some(Handler::Pres(StatPresCommand))).unwrap();
    tree.add(0, b"ABORt", false, Some(Handler::Abort(AbortCommand))).unwrap();
    tree.add(0, b"FAIL", false, Some(Handler::Failing)).unwrap();
    tree.add(0, b"TAKE", false, Some(Handler::Greedy)).unwrap();
    Bench {
        tree,
        device: TestDevice::new(),
        status: Status::new(10),
        sens,
        volt,
        dc,
        oper,
        oper_event,
    }
}

fn execute(bench: &mut Bench, message: &[u8]) -> (Result<(), Error>, Vec<u8>, Context) {
    let mut context = Context::new();
    let mut response = Response::new(256);
    let report = bench.tree.run(
        message,
        &mut bench.device,
        &mut bench.status,
        &mut context,
        &mut response,
    );
    assert!(report.failed <= report.units);
    assert_eq!(report.failed == 0, report.first_error.is_none());
    (report.result(), response.as_slice().to_vec(), context)
}

fn report(bench: &mut Bench, message: &[u8]) -> Report {
    let mut context = Context::new();
    let mut response = Response::new(256);
    bench.tree.run(
        message,
        &mut bench.device,
        &mut bench.status,
        &mut context,
        &mut response,
    )
}

#[test]
fn scenario_identification() {
    let mut bench = bench();
    let (result, response, _) = execute(&mut bench, b"*IDN?\n");
    assert_eq!(result, Ok(()));
    assert_eq!(response, b"ACME,X1,0,0\n");
    assert_eq!(bench.status.errors.num_errors(), 0);
}

#[test]
fn scenario_query_then_common_query() {
    let mut bench = bench();
    let (result, response, _) = execute(&mut bench, b"SENS:VOLT:DC?;*IDN?\n");
    assert_eq!(result, Ok(()));
    assert_eq!(response, b"1.23;ACME,X1,0,0\n");
    assert_eq!(bench.status.errors.num_errors(), 0);
}

#[test]
fn scenario_relative_then_absolute() {
    let mut bench = bench();
    let (result, response, _) = execute(&mut bench, b"SENS:VOLT:DC?;:SENS:VOLT:DC?\n");
    assert_eq!(result, Ok(()));
    assert_eq!(response, b"1.23;1.23\n");
    assert_eq!(bench.status.errors.num_errors(), 0);
}

#[test]
fn scenario_sibling_without_query_form() {
    let mut bench = bench();
    let (result, response, _) = execute(&mut bench, b"SENS:VOLT:DC?;AC?\n");
    assert_eq!(result, Err(Error::new(ErrorCode::UndefinedHeader)));
    assert_eq!(result.unwrap_err().get_code(), -113);
    assert_eq!(response, b"1.23;");
    assert_eq!(bench.status.errors.num_errors(), 1);
    assert_eq!(
        bench.status.errors.pop_front_error(),
        Error::new(ErrorCode::UndefinedHeader)
    );
}

#[test]
fn scenario_reset_keeps_event_status() {
    let mut bench = bench();
    let (result, _, _) = execute(&mut bench, b"BOGUS\n");
    assert_eq!(result, Err(Error::new(ErrorCode::UndefinedHeader)));
    assert_eq!(bench.status.esr, 0x20);
    bench.status.errors.clear_errors();
    let (result, response, _) = execute(&mut bench, b"*RST;*ESR?\n");
    assert_eq!(result, Ok(()));
    assert_eq!(response, b"32\n");
    assert_eq!(bench.status.esr, 0);
    assert_eq!(bench.device.resets, 1);
    assert_eq!(bench.status.errors.num_errors(), 0);
}

#[test]
fn scenario_enable_then_sibling_query() {
    let mut bench = bench();
    let (result, response, _) = execute(&mut bench, b"STAT:QUES:ENAB 5;ENAB?\n");
    assert_eq!(result, Ok(()));
    assert_eq!(response, b"5\n");
    assert_eq!(bench.status.questionable.enable, 5);
    assert_eq!(bench.status.errors.num_errors(), 0);
}

#[test]
fn path_is_parent_of_resolved_node() {
    let mut bench = bench();
    let (result, _, context) = execute(&mut bench, b"SENS:VOLT:DC?\n");
    assert_eq!(result, Ok(()));
    assert_eq!(context.path, bench.volt);
    assert_eq!(bench.tree.depth(bench.dc), 3);
    assert_eq!(bench.tree.depth(context.path), 2);
    assert_eq!(bench.tree.parent_of(bench.dc), bench.volt);
    assert_eq!(bench.tree.parent_of(bench.volt), bench.sens);
}

#[test]
fn common_command_keeps_path() {
    let mut bench = bench();
    let (result, response, context) = execute(&mut bench, b"SENS:VOLT:DC?;*OPC?;DC?\n");
    assert_eq!(result, Ok(()));
    assert_eq!(response, b"1.23;1;1.23\n");
    assert_eq!(context.path, bench.volt);
}

#[test]
fn default_node_is_entered_without_name() {
    let mut bench = bench();
    bench.status.operation.event = 0x8003;
    let (result, response, context) = execute(&mut bench, b"STAT:OPER?\n");
    assert_eq!(result, Ok(()));
    assert_eq!(response, b"3\n");
    assert_eq!(bench.status.operation.event, 0);
    assert_eq!(context.path, bench.oper);
    assert_eq!(bench.tree.parent_of(bench.oper_event), bench.oper);
}

#[test]
fn error_is_isolated_to_its_unit() {
    let mut bench = bench();
    let (result, response, _) = execute(&mut bench, b"FAIL?;*IDN?;FAIL;*ESR?\n");
    assert_eq!(result, Err(Error::new(ErrorCode::ExecutionError)));
    assert_eq!(response, b"ACME,X1,0,0;16");
    assert_eq!(bench.status.errors.num_errors(), 2);
    assert_eq!(bench.status.esr, 0);
}

#[test]
fn single_error_sets_one_bit_and_queues_one_error() {
    let mut bench = bench();
    let (result, response, _) = execute(&mut bench, b"SENS:VOLT:DC?;NOPE;DC?\n");
    assert_eq!(result, Err(Error::new(ErrorCode::UndefinedHeader)));
    assert_eq!(response, b"1.23;1.23");
    assert_eq!(bench.status.esr, 0x20);
    assert_eq!(bench.status.errors.num_errors(), 1);
}

#[test]
fn unread_data_is_an_invalid_separator() {
    let mut bench = bench();
    let (result, response, _) = execute(&mut bench, b"*IDN? 1\n");
    assert_eq!(result, Err(Error::new(ErrorCode::InvalidSeparator)));
    assert_eq!(response, b"");
    assert_eq!(bench.status.esr, 0x20);
}

#[test]
fn handler_reads_all_its_data() {
    let mut bench = bench();
    let (result, response, _) = execute(&mut bench, b"TAKE 1, 'two', #H3;*IDN?\n");
    assert_eq!(result, Ok(()));
    assert_eq!(response, b"ACME,X1,0,0\n");
}

#[test]
fn node_without_handler_is_a_header_error() {
    let mut bench = bench();
    let (result, _, _) = execute(&mut bench, b"SENS:VOLT\n");
    assert_eq!(result, Err(Error::new(ErrorCode::CommandHeaderError)));
    assert_eq!(bench.status.esr, 0x20);
}

#[test]
fn lexer_error_in_header_is_recorded() {
    let mut bench = bench();
    let (result, response, _) = execute(&mut bench, b"SENS::VOLT:DC?;*IDN?\n");
    assert_eq!(result, Err(Error::new(ErrorCode::InvalidSeparator)));
    assert_eq!(response, b"ACME,X1,0,0");
    assert_eq!(bench.status.errors.num_errors(), 1);
}

#[test]
fn empty_message_gives_empty_response() {
    let mut bench = bench();
    let (result, response, _) = execute(&mut bench, b"\n");
    assert_eq!(result, Ok(()));
    assert_eq!(response, b"");
    let (result, response, _) = execute(&mut bench, b"");
    assert_eq!(result, Ok(()));
    assert_eq!(response, b"");
}

#[test]
fn status_commands_set_and_read_registers() {
    let mut bench = bench();
    let (result, response, _) = execute(
        &mut bench,
        b"*ESE 255;*ESE?;*SRE 255;*SRE?;STAT:OPER:ENAB #HFFFF;ENAB?;NTR 3;NTR?;PTR 4;PTR?\n",
    );
    assert_eq!(result, Ok(()));
    assert_eq!(response, b"255;191;32767;3;4\n");
    assert_eq!(bench.status.ese, 255);
    assert_eq!(bench.status.sre, 191);
    assert_eq!(bench.status.operation.enable, 0xffff);
    assert_eq!(bench.status.operation.ntr_filter, 3);
    assert_eq!(bench.status.operation.ptr_filter, 4);
}

#[test]
fn value_out_of_range_is_an_execution_error() {
    let mut bench = bench();
    let (result, _, _) = execute(&mut bench, b"*ESE 256\n");
    assert_eq!(result, Err(Error::new(ErrorCode::DataOutOfRange)));
    assert_eq!(bench.status.esr, 0x10);
    assert_eq!(bench.status.ese, 0);
    let (result, _, _) = execute(&mut bench, b"*ESE\n");
    assert_eq!(result, Err(Error::new(ErrorCode::MissingParameter)));
    let (result, _, _) = execute(&mut bench, b"*ESE 'a'\n");
    assert_eq!(result, Err(Error::new(ErrorCode::DataTypeError)));
}

#[test]
fn clear_status_keeps_enables() {
    let mut bench = bench();
    bench.status.ese = 7;
    bench.status.sre = 9;
    bench.status.esr = 0x20;
    bench.status.operation.event = 1;
    bench.status.operation.enable = 2;
    bench.status.questionable.event = 3;
    bench.status.questionable.ptr_filter = 4;
    bench.status.errors.push_back_error(Error::new(ErrorCode::SyntaxError));
    let (result, response, _) = execute(&mut bench, b"*CLS\n");
    assert_eq!(result, Ok(()));
    assert_eq!(response, b"");
    assert_eq!(bench.status.esr, 0);
    assert_eq!(bench.status.ese, 7);
    assert_eq!(bench.status.sre, 9);
    assert_eq!(bench.status.operation.event, 0);
    assert_eq!(bench.status.operation.enable, 2);
    assert_eq!(bench.status.questionable.event, 0);
    assert_eq!(bench.status.questionable.ptr_filter, 4);
    assert_eq!(bench.status.errors.num_errors(), 0);
}

#[test]
fn reset_leaves_status_alone() {
    let mut bench = bench();
    bench.status.ese = 7;
    bench.status.sre = 9;
    bench.status.esr = 0x20;
    bench.status.operation.event = 1;
    bench.status.operation.enable = 2;
    bench.status.questionable.ntr_filter = 5;
    bench.status.errors.push_back_error(Error::new(ErrorCode::SyntaxError));
    let (result, response, _) = execute(&mut bench, b"*RST\n");
    assert_eq!(result, Ok(()));
    assert_eq!(response, b"");
    assert_eq!(bench.device.resets, 1);
    assert_eq!(bench.status.esr, 0x20);
    assert_eq!(bench.status.ese, 7);
    assert_eq!(bench.status.sre, 9);
    assert_eq!(bench.status.operation.event, 1);
    assert_eq!(bench.status.operation.enable, 2);
    assert_eq!(bench.status.questionable.ntr_filter, 5);
    assert_eq!(bench.status.errors.num_errors(), 1);
}

#[test]
fn status_byte_reports_summaries() {
    let mut bench = bench();
    bench.status.operation.event = 1;
    bench.status.operation.enable = 1;
    bench.status.esr = 0x20;
    bench.status.ese = 0x20;
    let (result, response, _) = execute(&mut bench, b"*STB?\n");
    assert_eq!(result, Ok(()));
    assert_eq!(response, b"160\n");
    bench.status.questionable.event = 2;
    bench.status.questionable.enable = 2;
    bench.status.errors.push_back_error(Error::new(ErrorCode::SyntaxError));
    assert_eq!(bench.status.read_stb(true), 0x80 | 0x20 | 0x10 | 0x08 | 0x04);
    assert_eq!(bench.status.read_stb(false), 0x80 | 0x20 | 0x08 | 0x04);
}

#[test]
fn self_test_reports_code() {
    let mut bench = bench();
    let (result, response, _) = execute(&mut bench, b"*TST?\n");
    assert_eq!(result, Ok(()));
    assert_eq!(response, b"0\n");
    bench.device.self_test = Err(Error::new(ErrorCode::SelfTestFailed));
    let (result, response, _) = execute(&mut bench, b"*TST?\n");
    assert_eq!(result, Ok(()));
    assert_eq!(response, b"-330\n");
}

#[test]
fn preset_sets_filters() {
    let mut bench = bench();
    bench.status.operation.enable = 0xff;
    bench.status.questionable.ntr_filter = 0xff;
    let (result, _, _) = execute(&mut bench, b"STAT:PRES;*WAI;*OPC;:ABOR\n");
    assert_eq!(result, Ok(()));
    assert_eq!(bench.status.operation.enable, 0);
    assert_eq!(bench.status.operation.ptr_filter, 0x7fff);
    assert_eq!(bench.status.operation.ntr_filter, 0);
    assert_eq!(bench.status.questionable.enable, 0);
    assert_eq!(bench.status.questionable.ptr_filter, 0x7fff);
    assert_eq!(bench.status.questionable.ntr_filter, 0);
    assert_eq!(bench.device.aborts, 1);
}

#[test]
fn condition_query_leaves_register() {
    let mut bench = bench();
    bench.status.questionable.condition = 0x8005;
    let (result, response, _) = execute(&mut bench, b"STAT:QUES:COND?;COND?\n");
    assert_eq!(result, Ok(()));
    assert_eq!(response, b"5;5\n");
    assert_eq!(bench.status.questionable.condition, 0x8005);
}

#[test]
fn response_overflow_is_an_error() {
    let mut bench = bench();
    let mut context = Context::new();
    let mut response = Response::new(5);
    let result = bench
        .tree
        .run(
            b"*IDN?;SENS:VOLT:DC?\n",
            &mut bench.device,
            &mut bench.status,
            &mut context,
            &mut response,
        )
        .result();
    assert_eq!(result, Err(Error::new(ErrorCode::OutOfMemory)));
    assert_eq!(response.as_slice(), b"1.23");
    assert_eq!(bench.status.esr, 0x10);
}

#[test]
fn tree_refuses_clashing_names_and_second_default() {
    let mut tree: Tree<Handler> = Tree::new();
    let a = tree.add(0, b"TRIGger", false, None).unwrap();
    assert_eq!(a, 1);
    assert_eq!(tree.add(0, b"TRIG", false, None), None);
    assert_eq!(tree.add(0, b"TRIGger1", false, None), None);
    assert_eq!(tree.add(0, b"", false, None), None);
    assert_eq!(tree.add(7, b"X", false, None), None);
    assert_eq!(tree.add(0, b"TRIGger2", true, None), Some(2));
    assert_eq!(tree.add(0, b"OTHer", true, None), None);
    assert_eq!(tree.add(a, b"TRIGger", true, None), Some(3));
    assert_eq!(tree.len(), 4);
    assert_eq!(tree.depth(3), 2);
    assert_eq!(tree.depth(0), 0);
}

#[test]
fn refused_query_keeps_earlier_answers() {
    let mut bench = bench();
    let mut context = Context::new();
    let mut response = Response::new(4);
    let result = bench
        .tree
        .run(
            b"SENS:VOLT:DC?;DC?\n",
            &mut bench.device,
            &mut bench.status,
            &mut context,
            &mut response,
        )
        .result();
    assert_eq!(result, Err(Error::new(ErrorCode::OutOfMemory)));
    assert_eq!(response.as_slice(), b"1.23");
    assert_eq!(bench.status.errors.num_errors(), 1);
    let mut response = Response::new(4);
    let report = bench.tree.run(
        b"SENS:VOLT:DC?\n",
        &mut bench.device,
        &mut bench.status,
        &mut context,
        &mut response,
    );
    assert_eq!(
        report,
        Report {
            units: 1,
            failed: 0,
            first_error: Some(Error::new(ErrorCode::OutOfMemory))
        }
    );
    assert_eq!(response.as_slice(), b"1.23");
}

#[test]
fn every_unit_is_run_whatever_the_others_do() {
    let mut bench = bench();
    assert_eq!(
        report(&mut bench, b"FAIL?;*IDN?;FAIL;*ESR?\n"),
        Report {
            units: 4,
            failed: 2,
            first_error: Some(Error::new(ErrorCode::ExecutionError))
        }
    );
    assert_eq!(
        report(&mut bench, b"*IDN?\n"),
        Report {
            units: 1,
            failed: 0,
            first_error: None
        }
    );
    assert_eq!(
        report(&mut bench, b"\n").units,
        0
    );
    assert_eq!(report(&mut bench, b"").units, 0);
    assert_eq!(report(&mut bench, b";;").units, 2);
    assert_eq!(report(&mut bench, b";;").failed, 2);
    assert_eq!(report(&mut bench, b"A;B;C").units, 3);
    assert_eq!(report(&mut bench, b"A 'x;B;C").units, 1);
    assert_eq!(report(&mut bench, b"*IDN?\n*IDN?").units, 1);
    assert_eq!(report(&mut bench, b"TAKE 1\n*IDN?").units, 1);
    assert_eq!(report(&mut bench, b"*IDN?;\n").units, 1);
    assert_eq!(report(&mut bench, b"*IDN?; \n").units, 1);
}

#[test]
fn utf8_blocks_are_read_where_the_context_allows_them() {
    let mut bench = bench();
    let mut context = Context::new();
    assert!(!context.utf8_blocks);
    let mut response = Response::new(16);
    let message = "TAKE #s'åäö'".as_bytes();
    let report = bench.tree.run(
        message,
        &mut bench.device,
        &mut bench.status,
        &mut context,
        &mut response,
    );
    assert_eq!(
        report.result(),
        Err(Error::new(ErrorCode::NumericDataError))
    );
    context.utf8_blocks = true;
    let report = bench.tree.run(
        message,
        &mut bench.device,
        &mut bench.status,
        &mut context,
        &mut response,
    );
    assert_eq!(report.result(), Ok(()));
}

#[test]
fn data_before_the_line_feed_leaves_the_terminator() {
    let mut bench = bench();
    let (result, response, _) = execute(&mut bench, b"*ESE 5\n");
    assert_eq!(result, Ok(()));
    assert_eq!(response, b"");
    assert_eq!(bench.status.ese, 5);
    let (result, response, _) = execute(&mut bench, b"*ESE 7 ; *ESE?\n");
    assert_eq!(result, Ok(()));
    assert_eq!(response, b"7\n");
    assert_eq!(report(&mut bench, b"*ESE 5\n*ESE 6\n").units, 1);
    assert_eq!(bench.status.ese, 5);
    let (result, _, _) = execute(&mut bench, b"*ESE 5,\n");
    assert_eq!(result, Err(Error::new(ErrorCode::InvalidSeparator)));
}

#[test]
fn tree_keeps_the_handlers_it_is_given() {
    let mut tree: Tree<Handler> = Tree::new();
    let a = tree.add(0, b"A", false, Some(Handler::Dc)).unwrap();
    let b = tree.add(0, b"B", false, None).unwrap();
    let c = tree.add(b, b"C", false, Some(Handler::Ac)).unwrap();
    assert!(matches!(tree.handler(a), Some(Handler::Dc)));
    assert!(tree.handler(b).is_none());
    assert!(matches!(tree.handler(c), Some(Handler::Ac)));
    assert!(tree.handler(0).is_none());
    assert!(tree.handler(9).is_none());
    assert_eq!(tree.add(0, b"A", false, Some(Handler::Ac)), None);
    assert!(matches!(tree.handler(a), Some(Handler::Dc)));
}
